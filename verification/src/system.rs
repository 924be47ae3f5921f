//! Local queues at work side by side: what holds in every state that they can reach, in whatever
//! order they take their steps.
use vstd::prelude::*;

use crate::identity::Identity;
use crate::model::{LocalView, QueueView, SearchView};
use crate::ring::is_queue_size;
use crate::rng::lemma_pick_in_range;
use crate::run::{finish, repeats_left, stages_left, step_keeps_finish, step_makes_progress};

verus! {

impl<T> SearchView<T> {
    /// Whether the local queue is counted as a searcher.
    pub open spec fn is_searching(self) -> bool {
        !(self is Idle) && !(self is Entering)
    }

    /// Whether this is the search that is stealing from the global queue.
    pub open spec fn is_stealing_global(self) -> bool {
        self is Popping || self is Refilling || self is Refilled || self is Releasing
    }

    /// Whether this search has claimed items from the local queue number `ring`.
    pub open spec fn is_stealing_from(self, ring: int) -> bool {
        match self {
            SearchView::Copying { victim, count } => victim == ring,
            SearchView::Finishing { victim, first, batch } => victim == ring,
            _ => false,
        }
    }
}

/// How many local queues are counted as searchers.
pub open spec fn count_searching<T>(locals: Seq<LocalView<T>>) -> nat
    decreases locals.len(),
{
    if locals.len() == 0 {
        0
    } else {
        count_searching(locals.drop_last()) + if locals.last().search.is_searching() {
            1nat
        } else {
            0nat
        }
    }
}

/// What holds of a queue and its local queues in every state that they can reach.
pub open spec fn consistent<T>(queue: QueueView<T>, locals: Seq<LocalView<T>>) -> bool {
    &&& queue.wf()
    &&& locals.len() <= queue.rings.len()
    // Every local queue agrees with the shared state, and no two are the same.
    &&& forall|i: int| 0 <= i < locals.len() ==> (#[trigger] locals[i]).belongs_to(queue)
    &&& forall|i: int, j: int|
        0 <= i < j < locals.len() ==> (#[trigger] locals[i]).index != (#[trigger] locals[j]).index
    // The searchers are counted.
    &&& queue.searchers == count_searching(locals)
    // The flag is set exactly while one of them is stealing from the global queue.
    &&& queue.stealing_global <==> exists|i: int|
        0 <= i < locals.len() && (#[trigger] locals[i]).search.is_stealing_global()
    &&& forall|i: int, j: int|
        0 <= i < j < locals.len() ==> !((#[trigger] locals[i]).search.is_stealing_global() && (
        #[trigger] locals[j]).search.is_stealing_global())
    // The heads of a local queue differ exactly while one of them is stealing from it.
    &&& forall|ring: int|
        0 <= ring < queue.rings.len() ==> ((#[trigger] queue.rings[ring]).claimed.len() > 0
            <==> exists|i: int|
            0 <= i < locals.len() && (#[trigger] locals[i]).search.is_stealing_from(ring))
    &&& forall|i: int, j: int, ring: int|
        0 <= i < j < locals.len() ==> !(#[trigger] locals[i].search.is_stealing_from(ring)
            && #[trigger] locals[j].search.is_stealing_from(ring))
}

proof fn lemma_count_update<T>(locals: Seq<LocalView<T>>, i: int, local: LocalView<T>)
    requires
        0 <= i < locals.len(),
    ensures
        count_searching(locals.update(i, local)) + (if locals[i].search.is_searching() {
            1int
        } else {
            0int
        }) == count_searching(locals) + (if local.search.is_searching() {
            1int
        } else {
            0int
        }),
        !locals[i].search.is_searching() ==> count_searching(locals) < locals.len(),
        locals[i].search.is_searching() ==> count_searching(locals) > 0,
        count_searching(locals) <= locals.len(),
    decreases locals.len(),
{
    let updated = locals.update(i, local);
    if i == locals.len() - 1 {
        assert(updated.drop_last() =~= locals.drop_last());
        if locals.len() > 1 {
            lemma_count_update(locals.drop_last(), 0, locals[0]);
        }
    } else {
        assert(updated.drop_last() =~= locals.drop_last().update(i, local));
        lemma_count_update(locals.drop_last(), i, local);
    }
}

/// A new queue and the local queues that it has yielded are consistent, whatever the seeds of their
/// generators are.
pub proof fn new_is_consistent<T>(
    id: Identity,
    local_queues: usize,
    local_queue_size: u16,
    taken: bool,
    locals: Seq<LocalView<T>>,
)
    requires
        is_queue_size(local_queue_size as int),
        locals.len() <= local_queues,
        forall|i: int|
            0 <= i < locals.len() ==> (#[trigger] locals[i]) == LocalView::<T>::fresh(
                id,
                i,
                locals[i].rng,
            ),
    ensures
        consistent(
            QueueView {
                taken,
                ..QueueView::<T>::empty(id, local_queues as nat, local_queue_size as nat)
            },
            locals,
        ),
{
    lemma_count_idle(locals);
}

proof fn lemma_count_idle<T>(locals: Seq<LocalView<T>>)
    requires
        forall|i: int| 0 <= i < locals.len() ==> (#[trigger] locals[i]).search is Idle,
    ensures
        count_searching(locals) == 0,
    decreases locals.len(),
{
    if locals.len() > 0 {
        lemma_count_idle(locals.drop_last());
    }
}

/// A step leaves the local queue that takes it in agreement with the shared state.
pub proof fn step_keeps_belonging<T>(queue: QueueView<T>, local: LocalView<T>)
    requires
        queue.wf(),
        local.belongs_to(queue),
    ensures
        local.step(queue).queue.wf(),
        local.step(queue).local.belongs_to(local.step(queue).queue),
        local.step(queue).local.queue == local.queue,
        local.step(queue).local.index == local.index,
        local.step(queue).queue.id == queue.id,
        local.step(queue).queue.rings.len() == queue.rings.len(),
{
    let stepped = local.step(queue);
    if local.search is Picking {
        lemma_pick_in_range(local.rng, queue.rings.len() as usize);
    }
}

/// A step of one local queue leaves every other in agreement with the shared state.
proof fn lemma_step_spares_other<T>(
    queue: QueueView<T>,
    local: LocalView<T>,
    other: LocalView<T>,
)
    requires
        queue.wf(),
        local.belongs_to(queue),
        other.belongs_to(queue),
        local.index != other.index,
        !(local.search.is_stealing_global() && other.search.is_stealing_global()),
        forall|ring: int|
            !(#[trigger] local.search.is_stealing_from(ring) && other.search.is_stealing_from(
                ring,
            )),
    ensures
        other.belongs_to(local.step(queue).queue),
{
    let stepped = local.step(queue);
    match other.search {
        SearchView::Copying { victim, count } => {
            assert(other.search.is_stealing_from(victim));
            assert(!local.search.is_stealing_from(victim));
            assert(stepped.queue.rings[victim].claimed.len() >= queue.rings[victim].claimed.len());
            assert(forall|k: int|
                0 <= k < count ==> stepped.queue.rings[victim].claimed[k]
                    == #[trigger] queue.rings[victim].claimed[k]);
        },
        SearchView::Finishing { victim, first, batch } => {
            assert(other.search.is_stealing_from(victim));
            assert(!local.search.is_stealing_from(victim));
        },
        _ => {},
    }
}

/// A step of any local queue keeps the queue and its local queues consistent.
///
/// So they are consistent in every state that they reach, in whatever order they take their steps.
pub proof fn step_keeps_consistent<T>(queue: QueueView<T>, locals: Seq<LocalView<T>>, i: int)
    requires
        consistent(queue, locals),
        0 <= i < locals.len(),
    ensures
        ({
            let stepped = locals[i].step(queue);
            consistent(stepped.queue, locals.update(i, stepped.local))
        }),
{
    let local = locals[i];
    let stepped = local.step(queue);
    let after = locals.update(i, stepped.local);
    step_keeps_belonging(queue, local);
    assert forall|j: int| 0 <= j < after.len() implies (#[trigger] after[j]).belongs_to(
        stepped.queue,
    ) by {
        if j != i {
            assert(local.index != locals[j].index);
            assert(!(local.search.is_stealing_global() && locals[j].search.is_stealing_global()));
            assert forall|ring: int| !(#[trigger] local.search.is_stealing_from(ring)
                && locals[j].search.is_stealing_from(ring)) by {}
            lemma_step_spares_other(queue, local, locals[j]);
        }
    }
    lemma_count_update(locals, i, stepped.local);
    assert(stepped.queue.searchers == count_searching(after));
    lemma_step_flag(queue, locals, i);
    lemma_step_claims(queue, locals, i);
}

/// The flag stays in step with the searches.
proof fn lemma_step_flag<T>(queue: QueueView<T>, locals: Seq<LocalView<T>>, i: int)
    requires
        consistent(queue, locals),
        0 <= i < locals.len(),
    ensures
        ({
            let stepped = locals[i].step(queue);
            let after = locals.update(i, stepped.local);
            &&& stepped.queue.stealing_global <==> exists|k: int|
                0 <= k < after.len() && (#[trigger] after[k]).search.is_stealing_global()
            &&& forall|k: int, j: int|
                0 <= k < j < after.len() ==> !((#[trigger] after[k]).search.is_stealing_global()
                    && (#[trigger] after[j]).search.is_stealing_global())
        }),
{
    let local = locals[i];
    let stepped = local.step(queue);
    let after = locals.update(i, stepped.local);
    assert(after[i] == stepped.local);
    assert forall|j: int| 0 <= j < locals.len() && j != i implies #[trigger] after[j]
        == locals[j] by {}
    if local.search.is_stealing_global() {
        assert forall|j: int| 0 <= j < locals.len() && j != i implies !(
        #[trigger] after[j]).search.is_stealing_global() by {
            assert(after[j] == locals[j]);
        }
    }
    if queue.stealing_global {
        let k = choose|k: int|
            0 <= k < locals.len() && (#[trigger] locals[k]).search.is_stealing_global();
        assert(k != i ==> after[k] == locals[k]);
    }
}

/// The heads of the local queues stay in step with the searches.
proof fn lemma_step_claims<T>(queue: QueueView<T>, locals: Seq<LocalView<T>>, i: int)
    requires
        consistent(queue, locals),
        0 <= i < locals.len(),
    ensures
        ({
            let stepped = locals[i].step(queue);
            let after = locals.update(i, stepped.local);
            &&& forall|ring: int|
                0 <= ring < stepped.queue.rings.len() ==> ((
                #[trigger] stepped.queue.rings[ring]).claimed.len() > 0 <==> exists|k: int|
                    0 <= k < after.len() && (#[trigger] after[k]).search.is_stealing_from(ring))
            &&& forall|k: int, j: int, ring: int|
                0 <= k < j < after.len() ==> !(#[trigger] after[k].search.is_stealing_from(ring)
                    && #[trigger] after[j].search.is_stealing_from(ring))
        }),
{
    let local = locals[i];
    let stepped = local.step(queue);
    let after = locals.update(i, stepped.local);
    assert(after[i] == stepped.local);
    assert forall|j: int| 0 <= j < locals.len() && j != i implies #[trigger] after[j]
        == locals[j] by {}
    assert forall|ring: int| 0 <= ring < stepped.queue.rings.len() implies ((
    #[trigger] stepped.queue.rings[ring]).claimed.len() > 0 <==> exists|k: int|
        0 <= k < after.len() && (#[trigger] after[k]).search.is_stealing_from(ring)) by {
        assert(queue.rings[ring].claimed.len() > 0 <==> exists|k: int|
            0 <= k < locals.len() && (#[trigger] locals[k]).search.is_stealing_from(ring));
        if stepped.queue.rings[ring].claimed.len() > 0 {
            if !stepped.local.search.is_stealing_from(ring) {
                let k = choose|k: int|
                    0 <= k < locals.len() && (#[trigger] locals[k]).search.is_stealing_from(ring);
                assert(after[k] == locals[k]);
            }
        } else if exists|k: int|
            0 <= k < after.len() && (#[trigger] after[k]).search.is_stealing_from(ring) {
            let k = choose|k: int|
                0 <= k < after.len() && (#[trigger] after[k]).search.is_stealing_from(ring);
            if k != i {
                assert(after[k] == locals[k]);
                assert(locals[i].search.is_stealing_from(ring));
                assert(false);
            }
        }
    }
    assert forall|k: int, j: int, ring: int| 0 <= k < j < after.len() implies !(
    #[trigger] after[k].search.is_stealing_from(ring)
        && #[trigger] after[j].search.is_stealing_from(ring)) by {
        if after[k].search.is_stealing_from(ring) && after[j].search.is_stealing_from(ring) {
            if k == i {
                assert(after[j] == locals[j]);
                assert(locals[j].search.is_stealing_from(ring));
                assert(locals[j].belongs_to(queue));
                assert(queue.rings[ring].claimed.len() > 0);
                assert(locals[i].search.is_stealing_from(ring));
            } else if j == i {
                assert(after[k] == locals[k]);
                assert(locals[k].search.is_stealing_from(ring));
                assert(locals[k].belongs_to(queue));
                assert(queue.rings[ring].claimed.len() > 0);
                assert(locals[i].search.is_stealing_from(ring));
            } else {
                assert(after[k] == locals[k]);
                assert(after[j] == locals[j]);
                assert(locals[k].search.is_stealing_from(ring));
            }
        }
    }
}

/// Pushing an item to the global queue keeps the queue and its local queues consistent.
pub proof fn push_global_keeps_consistent<T>(
    queue: QueueView<T>,
    locals: Seq<LocalView<T>>,
    item: T,
)
    requires
        consistent(queue, locals),
    ensures
        consistent(queue.push(item), locals),
{
    assert forall|j: int| 0 <= j < locals.len() implies (#[trigger] locals[j]).belongs_to(
        queue.push(item),
    ) by {
        assert(locals[j].belongs_to(queue));
    }
}

/// Pushing an item past the LIFO slot of a local queue leaves the queue in order, and the slots
/// that are claimed as they are.
proof fn lemma_push_yield_shape<T>(queue: QueueView<T>, index: int, item: T)
    requires
        queue.wf(),
        0 <= index < queue.rings.len(),
    ensures
        ({
            let after = queue.push_yield(index, item);
            &&& after.wf()
            &&& after.id == queue.id
            &&& after.rings.len() == queue.rings.len()
            &&& after.searchers == queue.searchers
            &&& after.stealing_global == queue.stealing_global
            &&& forall|ring: int|
                0 <= ring < queue.rings.len() ==> (#[trigger] after.rings[ring]).claimed
                    == queue.rings[ring].claimed
            &&& forall|ring: int|
                0 <= ring < queue.rings.len() && ring != index
                    ==> #[trigger] after.rings[ring] == queue.rings[ring]
        }),
{
    assert(queue.rings[index].wf());
}

/// Pushing an item past the LIFO slot of a local queue that is not searching leaves every local
/// queue in agreement with the shared state.
proof fn lemma_push_yield_spares<T>(
    queue: QueueView<T>,
    index: int,
    item: T,
    local: LocalView<T>,
)
    requires
        queue.wf(),
        0 <= index < queue.rings.len(),
        local.belongs_to(queue),
        local.index == index ==> local.search is Idle,
    ensures
        local.belongs_to(queue.push_yield(index, item)),
{
    lemma_push_yield_shape(queue, index, item);
    let after = queue.push_yield(index, item);
    assert(after.rings[local.index].claimed == queue.rings[local.index].claimed);
    match local.search {
        SearchView::Copying { victim, count } => {
            assert(after.rings[victim].claimed == queue.rings[victim].claimed);
        },
        SearchView::Finishing { victim, first, batch } => {
            assert(after.rings[victim].claimed == queue.rings[victim].claimed);
        },
        _ => {},
    }
}

/// Pushing an item past the LIFO slot of a local queue that is not searching keeps the queue and
/// its local queues consistent.
pub proof fn push_yield_keeps_consistent<T>(
    queue: QueueView<T>,
    locals: Seq<LocalView<T>>,
    i: int,
    item: T,
)
    requires
        consistent(queue, locals),
        0 <= i < locals.len(),
        locals[i].search is Idle,
    ensures
        consistent(queue.push_yield(locals[i].index, item), locals),
{
    let index = locals[i].index;
    assert(locals[i].belongs_to(queue));
    lemma_push_yield_shape(queue, index, item);
    assert forall|j: int| 0 <= j < locals.len() implies (#[trigger] locals[j]).belongs_to(
        queue.push_yield(index, item),
    ) by {
        assert(locals[j].belongs_to(queue));
        assert(i < j ==> locals[i].index != locals[j].index);
        assert(j < i ==> locals[j].index != locals[i].index);
        lemma_push_yield_spares(queue, index, item, locals[j]);
    }
    lemma_keeps_consistent(queue, queue.push_yield(index, item), locals);
}

/// What every local queue agrees with is consistent if what is claimed has not changed.
proof fn lemma_keeps_consistent<T>(
    before: QueueView<T>,
    after: QueueView<T>,
    locals: Seq<LocalView<T>>,
)
    requires
        consistent(before, locals),
        after.wf(),
        after.rings.len() == before.rings.len(),
        after.searchers == before.searchers,
        after.stealing_global == before.stealing_global,
        forall|ring: int|
            0 <= ring < before.rings.len() ==> (#[trigger] after.rings[ring]).claimed
                == before.rings[ring].claimed,
        forall|j: int| 0 <= j < locals.len() ==> (#[trigger] locals[j]).belongs_to(after),
    ensures
        consistent(after, locals),
{
    assert forall|ring: int| 0 <= ring < after.rings.len() implies ((
    #[trigger] after.rings[ring]).claimed.len() > 0 <==> exists|k: int|
        0 <= k < locals.len() && (#[trigger] locals[k]).search.is_stealing_from(ring)) by {
        assert(after.rings[ring].claimed == before.rings[ring].claimed);
    }
}

/// Pushing an item to a local queue that is not searching keeps the queue and its local queues
/// consistent.
pub proof fn push_keeps_consistent<T>(
    queue: QueueView<T>,
    locals: Seq<LocalView<T>>,
    i: int,
    item: T,
)
    requires
        consistent(queue, locals),
        0 <= i < locals.len(),
        locals[i].search is Idle,
    ensures
        ({
            let (after, local) = locals[i].push(queue, item);
            consistent(after, locals.update(i, local))
        }),
{
    let (after, local) = locals[i].push(queue, item);
    if let Some(previous) = locals[i].lifo_slot {
        push_yield_keeps_consistent(queue, locals, i, previous);
    }
    lemma_same_search(after, locals, i, local);
}

/// Nothing but its search matters of what a local queue holds outside of the shared state.
proof fn lemma_same_search<T>(
    queue: QueueView<T>,
    locals: Seq<LocalView<T>>,
    i: int,
    local: LocalView<T>,
)
    requires
        consistent(queue, locals),
        0 <= i < locals.len(),
        local.queue == locals[i].queue,
        local.index == locals[i].index,
        local.search == locals[i].search,
    ensures
        consistent(queue, locals.update(i, local)),
{
    let updated = locals.update(i, local);
    lemma_count_update(locals, i, local);
    assert forall|j: int| 0 <= j < locals.len() implies (#[trigger] updated[j]).search
        == locals[j].search && updated[j].index == locals[j].index && updated[j].queue
        == locals[j].queue by {}
    assert forall|j: int| 0 <= j < updated.len() implies (#[trigger] updated[j]).belongs_to(
        queue,
    ) by {
        assert(locals[j].belongs_to(queue));
    }
    if queue.stealing_global {
        let k = choose|k: int|
            0 <= k < locals.len() && (#[trigger] locals[k]).search.is_stealing_global();
        assert(updated[k].search.is_stealing_global());
    }
    assert forall|ring: int| 0 <= ring < queue.rings.len() implies ((
    #[trigger] queue.rings[ring]).claimed.len() > 0 <==> exists|k: int|
        0 <= k < updated.len() && (#[trigger] updated[k]).search.is_stealing_from(ring)) by {
        if queue.rings[ring].claimed.len() > 0 {
            let k = choose|k: int|
                0 <= k < locals.len() && (#[trigger] locals[k]).search.is_stealing_from(ring);
            assert(updated[k].search.is_stealing_from(ring));
        }
    }
    assert forall|k: int, j: int, ring: int| 0 <= k < j < updated.len() implies !(
    #[trigger] updated[k].search.is_stealing_from(ring)
        && #[trigger] updated[j].search.is_stealing_from(ring)) by {
        assert(!(locals[k].search.is_stealing_from(ring) && locals[j].search.is_stealing_from(
            ring,
        )));
    }
}

/// Popping from a local queue that is not searching keeps the queue and its local queues
/// consistent.
pub proof fn pop_keeps_consistent<T>(queue: QueueView<T>, locals: Seq<LocalView<T>>, i: int)
    requires
        consistent(queue, locals),
        0 <= i < locals.len(),
        locals[i].search is Idle,
    ensures
        ({
            let popped = queue.pop(locals[i]);
            consistent(popped.queue, locals.update(i, popped.local))
        }),
{
    lemma_finish_keeps_consistent(queue, locals, i);
}

proof fn lemma_finish_keeps_consistent<T>(
    queue: QueueView<T>,
    locals: Seq<LocalView<T>>,
    i: int,
)
    requires
        consistent(queue, locals),
        0 <= i < locals.len(),
    ensures
        ({
            let popped = finish(queue, locals[i]);
            consistent(popped.queue, locals.update(i, popped.local))
        }),
    decreases stages_left(locals[i].search), repeats_left(queue, locals[i].search),
{
    assert(locals[i].belongs_to(queue));
    let stepped = locals[i].step(queue);
    let after = locals.update(i, stepped.local);
    step_keeps_consistent(queue, locals, i);
    step_keeps_finish(queue, locals[i]);
    if stepped.outcome is None {
        step_makes_progress(queue, locals[i]);
        lemma_finish_keeps_consistent(stepped.queue, after, i);
        let popped = finish(queue, locals[i]);
        assert(after.update(i, popped.local) =~= locals.update(i, popped.local));
    }
}

/// While no local queue is searching, none is counted as a searcher, nothing keeps others from
/// stealing from the global queue, and no slots are protected.
pub proof fn nothing_pending_while_idle<T>(queue: QueueView<T>, locals: Seq<LocalView<T>>)
    requires
        consistent(queue, locals),
        forall|i: int| 0 <= i < locals.len() ==> (#[trigger] locals[i]).search is Idle,
    ensures
        queue.searchers == 0,
        !queue.stealing_global,
        forall|ring: int|
            0 <= ring < queue.rings.len() ==> (#[trigger] queue.rings[ring]).claimed.len() == 0,
{
    lemma_count_idle(locals);
}

/// The number of searchers is never greater than the number of local queues.
pub proof fn searchers_bounded<T>(queue: QueueView<T>, locals: Seq<LocalView<T>>)
    requires
        consistent(queue, locals),
    ensures
        queue.searchers <= locals.len(),
{
    if locals.len() > 0 {
        lemma_count_update(locals, 0, locals[0]);
    }
}

/// The items that one local queue has claimed are not overwritten before it has taken them: a step
/// of another leaves them where they are.
pub proof fn step_spares_claimed<T>(
    queue: QueueView<T>,
    locals: Seq<LocalView<T>>,
    i: int,
    thief: int,
)
    requires
        consistent(queue, locals),
        0 <= i < locals.len(),
        0 <= thief < locals.len(),
        i != thief,
        locals[thief].search is Copying,
    ensures
        ({
            let victim = locals[thief].search->Copying_victim;
            let count = locals[thief].search->Copying_count;
            locals[i].step(queue).queue.rings[victim].claimed_items(count)
                == queue.rings[victim].claimed_items(count)
        }),
{
    let victim = locals[thief].search->Copying_victim;
    let count = locals[thief].search->Copying_count;
    let after = locals[i].step(queue).queue;
    assert(locals[thief].belongs_to(queue));
    assert(locals[i].belongs_to(queue));
    assert(locals[thief].search.is_stealing_from(victim));
    assert(!locals[i].search.is_stealing_from(victim));
    assert(after.rings[victim].claimed.take(count) =~= queue.rings[victim].claimed.take(count));
}

/// The items that a local queue has claimed are not overwritten before it has taken them: a push
/// leaves them where they are.
pub proof fn push_yield_spares_claimed<T>(
    queue: QueueView<T>,
    locals: Seq<LocalView<T>>,
    i: int,
    thief: int,
    item: T,
)
    requires
        consistent(queue, locals),
        0 <= i < locals.len(),
        0 <= thief < locals.len(),
        locals[thief].search is Copying,
    ensures
        ({
            let victim = locals[thief].search->Copying_victim;
            let count = locals[thief].search->Copying_count;
            queue.push_yield(locals[i].index, item).rings[victim].claimed_items(count)
                == queue.rings[victim].claimed_items(count)
        }),
{
    assert(locals[thief].belongs_to(queue));
    assert(locals[i].belongs_to(queue));
}

} // verus!
