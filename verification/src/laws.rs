//! In which order items come out, and when none does.
use vstd::prelude::*;

use crate::model::{
    can_steal, first_victim, nothing_to_steal, sibling, LocalView, Popped, QueueView,
};
use crate::ring::RingView;
use crate::rng::{lemma_pick_in_range, pick};

verus! {

/// The item that was pushed last is popped first, and popping it changes nothing else.
pub proof fn pop_undoes_push<T>(queue: QueueView<T>, local: LocalView<T>, item: T)
    ensures
        ({
            let (after, pushed) = local.push(queue, item);
            let popped = after.pop(pushed);
            &&& popped.item == Some(item)
            &&& popped.queue == after
            &&& popped.local == (LocalView { lifo_slot: None, ..local })
        }),
{
}

/// While a local queue has items besides the one in its LIFO slot, they are popped in the order in
/// which they were pushed, and nothing but the local queue changes.
pub proof fn pop_takes_own_items_in_order<T>(queue: QueueView<T>, local: LocalView<T>)
    requires
        0 <= local.index < queue.rings.len(),
        local.lifo_slot is None,
        queue.rings[local.index].ready.len() > 0,
    ensures
        ({
            let ready = queue.rings[local.index].ready;
            let popped = queue.pop(local);
            &&& popped.item == Some(ready[0])
            &&& popped.queue.rings[local.index].ready == ready.drop_first()
            &&& popped.queue.global == queue.global
            &&& popped.local == local
            &&& forall|i: int|
                0 <= i < queue.rings.len() && i != local.index
                    ==> #[trigger] popped.queue.rings[i] == queue.rings[i]
        }),
{
}

proof fn lemma_first_victim<T>(rings: Seq<RingView<T>>, index: int, start: int, visited: int)
    requires
        0 <= start < rings.len(),
        0 <= visited,
    ensures
        match first_victim(rings, index, start, visited) {
            Some(victim) => 0 <= victim < rings.len() && can_steal(rings, index, victim),
            None => forall|i: int|
                visited <= i < rings.len() ==> !can_steal(
                    rings,
                    index,
                    #[trigger] sibling(rings.len(), start, i),
                ),
        },
    decreases rings.len() - visited,
{
    if visited < rings.len() {
        lemma_first_victim(rings, index, start, visited + 1);
    }
}

/// A search of the siblings finds one to steal from whenever there is one, wherever it starts.
pub proof fn search_finds_victim<T>(rings: Seq<RingView<T>>, index: int, start: int)
    requires
        0 <= start < rings.len(),
    ensures
        match first_victim(rings, index, start, 0) {
            Some(victim) => 0 <= victim < rings.len() && can_steal(rings, index, victim),
            None => nothing_to_steal(rings, index),
        },
{
    lemma_first_victim(rings, index, start, 0);
    if first_victim(rings, index, start, 0) is None {
        assert forall|victim: int| 0 <= victim < rings.len() implies !#[trigger] can_steal(
            rings,
            index,
            victim,
        ) by {
            let visited = if victim >= start {
                victim - start
            } else {
                victim - start + rings.len()
            };
            assert(sibling(rings.len(), start, visited) == victim);
        }
    }
}

/// Wherever a search of the siblings starts, it steals from one that can be stolen from, and pops
/// from the global queue only if there is none.
pub proof fn search_steals_if_it_can<T>(queue: QueueView<T>, local: LocalView<T>)
    requires
        queue.wf(),
        0 <= local.index < queue.rings.len(),
    ensures
        queue.may_steal_or_pop_global(local, queue.pick_and_steal(local)),
{
    let queues = queue.rings.len() as usize;
    let start = pick(local.rng, queues);
    lemma_pick_in_range(local.rng, queues);
    search_finds_victim(queue.rings, local.index, start);
    if let Some(victim) = first_victim(queue.rings, local.index, start, 0) {
        assert(can_steal(queue.rings, local.index, victim));
    }
}

/// Popping finds no item if and only if there is none within reach: none in the LIFO slot, none
/// in the local queue, none in the global queue, and no sibling that can be stolen from.
pub proof fn pop_fails_only_without_items<T>(queue: QueueView<T>, local: LocalView<T>)
    requires
        queue.wf(),
        0 <= local.index < queue.rings.len(),
    ensures
        queue.pop(local).item is None <==> {
            &&& local.lifo_slot is None
            &&& queue.rings[local.index].ready.len() == 0
            &&& queue.global.len() == 0
            &&& nothing_to_steal(queue.rings, local.index)
        },
{
    let queues = queue.rings.len() as usize;
    lemma_pick_in_range(local.rng, queues);
    search_finds_victim(queue.rings, local.index, pick(local.rng, queues));
}

/// Once popping is over, there are as many searchers as before, and as before others can or cannot
/// steal from the global queue. The LIFO slot of the local queue is empty, and it is still the same
/// local queue of the same queue.
pub proof fn pop_settles<T>(queue: QueueView<T>, local: LocalView<T>)
    ensures
        queue.pop(local).queue.id == queue.id,
        queue.pop(local).local.queue == local.queue,
        queue.pop(local).queue.searchers == queue.searchers,
        queue.pop(local).queue.stealing_global == queue.stealing_global,
        queue.pop(local).queue.taken == queue.taken,
        queue.pop(local).local.index == local.index,
        queue.pop(local).local.search == local.search,
        queue.pop(local).local.lifo_slot is None,
{
}

/// The items that a local queue pops as long as there is nothing to steal from its siblings.
pub open spec fn pending<T>(queue: QueueView<T>, local: LocalView<T>) -> Seq<T> {
    queue.rings[local.index].ready + queue.global
}

/// As long as there is nothing to steal from its siblings, a local queue pops its own items and
/// then those of the global queue, in the order in which they were pushed.
pub proof fn pop_takes_pending_in_order<T>(queue: QueueView<T>, local: LocalView<T>)
    requires
        queue.wf(),
        0 <= local.index < queue.rings.len(),
        local.lifo_slot is None,
        nothing_to_steal(queue.rings, local.index),
    ensures
        ({
            let before = pending(queue, local);
            let popped = queue.pop(local);
            &&& popped.item == if before.len() > 0 {
                Some(before[0])
            } else {
                None
            }
            &&& pending(popped.queue, popped.local) == if before.len() > 0 {
                before.drop_first()
            } else {
                before
            }
            &&& popped.queue.wf()
            &&& popped.local.index == local.index
            &&& popped.local.lifo_slot is None
            &&& popped.queue.rings.len() == queue.rings.len()
            &&& nothing_to_steal(popped.queue.rings, local.index)
        }),
{
    let before = pending(queue, local);
    let popped = queue.pop(local);
    let ring = queue.rings[local.index];
    let queues = queue.rings.len() as usize;
    lemma_pick_in_range(local.rng, queues);
    search_finds_victim(queue.rings, local.index, pick(local.rng, queues));
    assert forall|victim: int| 0 <= victim < queue.rings.len() implies !#[trigger] can_steal(
        popped.queue.rings,
        local.index,
        victim,
    ) by {
        assert(!can_steal(queue.rings, local.index, victim));
    }
    assert(pending(popped.queue, popped.local) =~= if before.len() > 0 {
        before.drop_first()
    } else {
        before
    });
}

/// What comes of popping `n` times in a row, and then once more.
pub open spec fn pop_after<T>(queue: QueueView<T>, local: LocalView<T>, n: nat) -> Popped<T>
    decreases n,
{
    if n == 0 {
        queue.pop(local)
    } else {
        let popped = queue.pop(local);
        pop_after(popped.queue, popped.local, (n - 1) as nat)
    }
}

/// Popping again and again yields all pending items in order, and then none any more.
pub proof fn pops_yield_all_pending<T>(queue: QueueView<T>, local: LocalView<T>, n: nat)
    requires
        queue.wf(),
        0 <= local.index < queue.rings.len(),
        local.lifo_slot is None,
        nothing_to_steal(queue.rings, local.index),
    ensures
        pop_after(queue, local, n).item == if n < pending(queue, local).len() {
            Some(pending(queue, local)[n as int])
        } else {
            None
        },
    decreases n,
{
    pop_takes_pending_in_order(queue, local);
    if n > 0 {
        let popped = queue.pop(local);
        pops_yield_all_pending(popped.queue, popped.local, (n - 1) as nat);
    }
}

/// A local queue that is not being stolen from steals half of a sibling's items, rounded up, and
/// leaves the sibling the other half.
pub proof fn steal_takes_half<T>(queue: QueueView<T>, local: LocalView<T>, victim: int)
    requires
        queue.wf(),
        0 <= local.index < queue.rings.len(),
        0 <= victim < queue.rings.len(),
        can_steal(queue.rings, local.index, victim),
        queue.rings[local.index].claimed.len() == 0,
        queue.rings[local.index].ready.len() == 0,
    ensures
        ({
            let items = queue.rings[victim].ready;
            let half = (items.len() + 1) as int / 2;
            let popped = queue.steal(local, victim);
            &&& popped.item == Some(items[0])
            &&& popped.queue.rings[local.index].ready == items.subrange(1, half)
            &&& popped.queue.rings[victim].ready == items.skip(half)
        }),
{
    let items = queue.rings[victim].ready;
    let half = (items.len() + 1) as int / 2;
    assert(queue.rings[victim].wf());
    assert(queue.rings[local.index].capacity == queue.rings[victim].capacity);
    assert(queue.steal_count(local.index, victim) == half);
    assert(queue.steal(local, victim).queue.rings[local.index].ready =~= items.subrange(1, half));
}

/// A local queue that is not being stolen from fills half of itself with items of the global queue,
/// as far as there are so many, besides the one that it pops.
pub proof fn refill_fills_half<T>(queue: QueueView<T>, local: LocalView<T>)
    requires
        queue.wf(),
        0 <= local.index < queue.rings.len(),
        queue.rings[local.index].claimed.len() == 0,
        queue.rings[local.index].ready.len() == 0,
        queue.global.len() > 0,
    ensures
        ({
            let popped = queue.refill(local);
            let half = queue.rings[local.index].capacity / 2;
            &&& popped.item == Some(queue.global[0])
            &&& popped.queue.rings[local.index].ready.len() == if half < queue.global.len() {
                half
            } else {
                (queue.global.len() - 1) as nat
            }
            &&& seq![queue.global[0]] + popped.queue.rings[local.index].ready + popped.queue.global
                == queue.global
        }),
{
    let popped = queue.refill(local);
    assert(queue.rings[local.index].wf());
    assert(seq![queue.global[0]] + popped.queue.rings[local.index].ready + popped.queue.global
        =~= queue.global);
}

/// A push to a full local queue that is not being stolen from makes room for half of its size.
pub proof fn overflow_makes_room<T>(queue: QueueView<T>, index: int, item: T)
    requires
        queue.wf(),
        0 <= index < queue.rings.len(),
        queue.rings[index].room() == 0,
        queue.rings[index].claimed.len() == 0,
    ensures
        ({
            let ring = queue.rings[index];
            let half = ring.capacity as int / 2;
            let after = queue.push_yield(index, item);
            &&& after.rings[index].room() == half
            &&& after.global == queue.global + ring.ready.take(half) + seq![item]
            &&& after.rings[index].ready == ring.ready.skip(half)
        }),
{
    let ring = queue.rings[index];
    let half = ring.capacity as int / 2;
    assert(ring.wf());
    assert(queue.push_yield(index, item).global =~= queue.global + ring.ready.take(half)
        + seq![item]);
}

/// Whether two queues have the same local queues, each of the same size.
pub open spec fn same_sizes<T>(a: QueueView<T>, b: QueueView<T>) -> bool {
    &&& a.rings.len() == b.rings.len()
    &&& forall|i: int|
        0 <= i < a.rings.len() ==> (#[trigger] a.rings[i]).capacity == b.rings[i].capacity
}

/// The number of local queues and their sizes are fixed: no operation changes them.
pub proof fn sizes_are_fixed<T>(queue: QueueView<T>, local: LocalView<T>, item: T)
    requires
        queue.wf(),
        local.belongs_to(queue),
    ensures
        same_sizes(queue, queue.push(item)),
        same_sizes(queue, queue.push_yield(local.index, item)),
        same_sizes(queue, local.push(queue, item).0),
        same_sizes(queue, local.step(queue).queue),
        same_sizes(queue, queue.pop(local).queue),
{
    let queues = queue.rings.len() as usize;
    lemma_pick_in_range(local.rng, queues);
    search_finds_victim(queue.rings, local.index, pick(local.rng, queues));
}

} // verus!
