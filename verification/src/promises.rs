//! What pushing and popping do to the items of a queue and its local queues, slot by slot.
use vstd::arithmetic::power2::pow2;
use vstd::prelude::*;

use crate::identity::Identity;
use crate::laws::{pending, pop_after, pops_yield_all_pending, search_finds_victim};
use crate::model::{first_victim, nothing_to_steal, LocalView, QueueView};
use crate::ring::RingView;
use crate::ring_laws::sizes_are_powers_of_two;
use crate::rng::{lemma_pick_in_range, pick, pick_state};

verus! {

/// Whether `after` differs from `before` in one of the rings and in the global queue alone.
pub open spec fn differs_at<T>(before: QueueView<T>, after: QueueView<T>, index: int) -> bool {
    &&& after.id == before.id
    &&& after.taken == before.taken
    &&& after.stealing_global == before.stealing_global
    &&& after.searchers == before.searchers
    &&& after.rings.len() == before.rings.len()
    &&& forall|i: int|
        0 <= i < before.rings.len() && i != index ==> #[trigger] after.rings[i] == before.rings[i]
}

/// Whether `after` is `before` with other ready items. The slots between the heads stay, and the
/// tail follows the items.
pub open spec fn differs_in_ready<T>(before: RingView<T>, after: RingView<T>) -> bool {
    &&& after.capacity == before.capacity
    &&& after.protected_head == before.protected_head
    &&& after.claimed == before.claimed
}

/// Whether `after` is `before` without its first `n` ready items, whose slots are free.
pub open spec fn front_is_free<T>(before: RingView<T>, after: RingView<T>, n: int) -> bool {
    &&& after.capacity == before.capacity
    &&& after.protected_head == (before.protected_head + n) % 0x1_0000
    &&& after.claimed == before.claimed
    &&& before.ready == before.ready.take(n) + after.ready
}

/// A queue is in order if and only if all of its local queues have the same size, a power of two,
/// and none holds more than that.
pub proof fn order_is_size_and_room<T>(queue: QueueView<T>)
    ensures
        queue.wf() <==> {
            &&& queue.rings.len() <= usize::MAX
            &&& forall|i: int|
                0 <= i < queue.rings.len() ==> {
                    let ring = #[trigger] queue.rings[i];
                    &&& exists|k: nat| k < 16 && ring.capacity == #[trigger] pow2(k)
                    &&& ring.claimed.len() + ring.ready.len() <= ring.capacity
                    &&& ring.capacity == queue.rings[0].capacity
                }
        },
{
    assert forall|i: int| 0 <= i < queue.rings.len() implies ((#[trigger] queue.rings[i]).wf()
        <==> {
        &&& exists|k: nat| k < 16 && queue.rings[i].capacity == #[trigger] pow2(k)
        &&& queue.rings[i].claimed.len() + queue.rings[i].ready.len() <= queue.rings[i].capacity
    }) by {
        sizes_are_powers_of_two(queue.rings[i].capacity as int);
    }
}

/// A local queue that is not searching can be used with its own queue, whatever either holds.
pub proof fn idle_belongs<T>(queue: QueueView<T>, local: LocalView<T>)
    requires
        local.search is Idle,
    ensures
        local.belongs_to(queue) <==> local.queue == queue.id && 0 <= local.index
            < queue.rings.len(),
{
}

/// A new queue has as many local queues as were asked for, each with exactly as many slots as were
/// asked for, and it holds no items.
pub proof fn new_queue_is_empty<T>(id: Identity, local_queues: nat, local_queue_size: nat)
    ensures
        ({
            let queue = QueueView::<T>::empty(id, local_queues, local_queue_size);
            &&& queue.id == id
            &&& queue.rings.len() == local_queues
            &&& forall|i: int|
                0 <= i < local_queues ==> {
                    let ring = #[trigger] queue.rings[i];
                    &&& ring.capacity == local_queue_size
                    &&& ring.protected_head == 0
                    &&& ring.claimed.len() == 0
                    &&& ring.ready.len() == 0
                }
            &&& queue.global.len() == 0
            &&& !queue.stealing_global
            &&& !queue.taken
            &&& queue.searchers == 0
        }),
{
}

/// A new local queue holds no items and is not searching.
pub proof fn new_local_queue_is_empty<T>(queue: Identity, index: int, rng: u64)
    ensures
        LocalView::<T>::fresh(queue, index, rng).queue == queue,
        LocalView::<T>::fresh(queue, index, rng).index == index,
        LocalView::<T>::fresh(queue, index, rng).rng == rng,
        LocalView::<T>::fresh(queue, index, rng).lifo_slot is None,
        LocalView::<T>::fresh(queue, index, rng).search is Idle,
{
}

/// An item that is pushed to the global queue stands behind all others there, and nothing else
/// changes.
pub proof fn push_goes_behind<T>(queue: QueueView<T>, item: T)
    ensures
        queue.push(item).global == queue.global + seq![item],
        queue.push(item).rings == queue.rings,
        differs_at(queue, queue.push(item), -1),
{
    assert(queue.push(item).global =~= queue.global + seq![item]);
}

/// While a local queue has a free slot, an item that is pushed past its LIFO slot stands behind
/// all others there, and nothing else changes.
pub proof fn push_yield_goes_behind<T>(queue: QueueView<T>, index: int, item: T)
    requires
        0 <= index < queue.rings.len(),
        queue.rings[index].claimed.len() + queue.rings[index].ready.len()
            < queue.rings[index].capacity,
    ensures
        ({
            let ring = queue.rings[index];
            let after = queue.push_yield(index, item);
            &&& after.rings[index].ready == ring.ready + seq![item]
            &&& differs_in_ready(ring, after.rings[index])
            &&& after.global == queue.global
            &&& differs_at(queue, after, index)
        }),
{
}

/// When a local queue has no free slot and no stealer is at work on it, the older half of its items
/// moves behind the items of the global queue, in order, and the pushed item behind those.
pub proof fn push_yield_overflows<T>(queue: QueueView<T>, index: int, item: T)
    requires
        0 <= index < queue.rings.len(),
        queue.rings[index].claimed.len() == 0,
        queue.rings[index].ready.len() == queue.rings[index].capacity,
    ensures
        ({
            let ring = queue.rings[index];
            let half = ring.capacity as int / 2;
            let after = queue.push_yield(index, item);
            &&& after.global == queue.global + ring.ready.take(half) + seq![item]
            &&& front_is_free(ring, after.rings[index], half)
            &&& differs_at(queue, after, index)
        }),
{
    let ring = queue.rings[index];
    let half = ring.capacity as int / 2;
    let after = queue.push_yield(index, item);
    assert(after.global =~= queue.global + ring.ready.take(half) + seq![item]);
    assert(ring.ready =~= ring.ready.take(half) + after.rings[index].ready);
}

/// When a local queue has no free slot while a stealer is at work on it, the pushed item alone goes
/// behind those of the global queue.
pub proof fn push_yield_while_claimed<T>(queue: QueueView<T>, index: int, item: T)
    requires
        0 <= index < queue.rings.len(),
        queue.rings[index].claimed.len() > 0,
        queue.rings[index].claimed.len() + queue.rings[index].ready.len()
            == queue.rings[index].capacity,
    ensures
        queue.push_yield(index, item).global == queue.global + seq![item],
        queue.push_yield(index, item).rings == queue.rings,
        differs_at(queue, queue.push_yield(index, item), -1),
{
    assert(queue.push_yield(index, item).global =~= queue.global + seq![item]);
}

/// An item that is pushed to a local queue goes to its LIFO slot. What was there is pushed past the
/// slot, and if nothing was there, nothing else changes.
pub proof fn push_fills_lifo_slot<T>(queue: QueueView<T>, local: LocalView<T>, item: T)
    ensures
        ({
            let (after, pushed) = local.push(queue, item);
            &&& pushed.lifo_slot == Some(item)
            &&& pushed.queue == local.queue
            &&& pushed.index == local.index
            &&& pushed.rng == local.rng
            &&& pushed.search == local.search
            &&& local.lifo_slot is None ==> after == queue
            &&& local.lifo_slot matches Some(previous) ==> after == queue.push_yield(
                local.index,
                previous,
            )
        }),
{
}

/// While a local queue has a free slot, the item that has to leave its LIFO slot stands behind all
/// others there, and nothing else changes.
pub proof fn push_moves_previous_behind<T>(
    queue: QueueView<T>,
    local: LocalView<T>,
    previous: T,
    item: T,
)
    requires
        0 <= local.index < queue.rings.len(),
        local.lifo_slot == Some(previous),
        queue.rings[local.index].claimed.len() + queue.rings[local.index].ready.len()
            < queue.rings[local.index].capacity,
    ensures
        ({
            let ring = queue.rings[local.index];
            let after = local.push(queue, item).0;
            &&& after.rings[local.index].ready == ring.ready + seq![previous]
            &&& differs_in_ready(ring, after.rings[local.index])
            &&& after.global == queue.global
            &&& differs_at(queue, after, local.index)
        }),
{
}

/// When a local queue has no free slot and no stealer is at work on it, the older half of its items
/// moves behind the items of the global queue, and the item that has to leave its LIFO slot behind
/// those.
pub proof fn push_overflows<T>(queue: QueueView<T>, local: LocalView<T>, previous: T, item: T)
    requires
        0 <= local.index < queue.rings.len(),
        local.lifo_slot == Some(previous),
        queue.rings[local.index].claimed.len() == 0,
        queue.rings[local.index].ready.len() == queue.rings[local.index].capacity,
    ensures
        ({
            let ring = queue.rings[local.index];
            let half = ring.capacity as int / 2;
            let after = local.push(queue, item).0;
            &&& after.global == queue.global + ring.ready.take(half) + seq![previous]
            &&& front_is_free(ring, after.rings[local.index], half)
            &&& differs_at(queue, after, local.index)
        }),
{
    push_yield_overflows(queue, local.index, previous);
}

/// When a local queue has no free slot while a stealer is at work on it, the item that has to leave
/// its LIFO slot alone goes behind those of the global queue.
pub proof fn push_while_claimed<T>(queue: QueueView<T>, local: LocalView<T>, previous: T, item: T)
    requires
        0 <= local.index < queue.rings.len(),
        local.lifo_slot == Some(previous),
        queue.rings[local.index].claimed.len() > 0,
        queue.rings[local.index].claimed.len() + queue.rings[local.index].ready.len()
            == queue.rings[local.index].capacity,
    ensures
        local.push(queue, item).0.global == queue.global + seq![previous],
        local.push(queue, item).0.rings == queue.rings,
        differs_at(queue, local.push(queue, item).0, -1),
{
    push_yield_while_claimed(queue, local.index, previous);
}

/// The item in the LIFO slot is popped before all others, and nothing else changes.
pub proof fn pop_takes_lifo_slot<T>(queue: QueueView<T>, local: LocalView<T>)
    requires
        local.lifo_slot is Some,
    ensures
        queue.pop(local).item == local.lifo_slot,
        queue.pop(local).queue == queue,
        queue.pop(local).local == (LocalView { lifo_slot: None, ..local }),
{
}

/// With nothing in the LIFO slot, the first of the local queue's own items is popped, and nothing
/// else changes. Its slot becomes free at once if no stealer is at work, and otherwise stays
/// between the heads.
pub proof fn pop_takes_own_front<T>(queue: QueueView<T>, local: LocalView<T>)
    requires
        0 <= local.index < queue.rings.len(),
        local.lifo_slot is None,
        queue.rings[local.index].ready.len() > 0,
    ensures
        ({
            let ring = queue.rings[local.index];
            let popped = queue.pop(local);
            let after = popped.queue.rings[local.index];
            &&& popped.item == Some(ring.ready[0])
            &&& ring.ready == seq![ring.ready[0]] + after.ready
            &&& after.capacity == ring.capacity
            &&& ring.claimed.len() == 0 ==> after.claimed.len() == 0 && after.protected_head == (
            ring.protected_head + 1) % 0x1_0000
            &&& ring.claimed.len() > 0 ==> after.claimed == ring.claimed.push(None)
                && after.protected_head == ring.protected_head
            &&& popped.queue.global == queue.global
            &&& differs_at(queue, popped.queue, local.index)
            &&& popped.local == local
        }),
{
    let ring = queue.rings[local.index];
    assert(ring.ready =~= seq![ring.ready[0]] + queue.pop(local).queue.rings[local.index].ready);
}

/// A local queue without items prefers the global queue to its siblings, unless another is already
/// stealing from it. The first item there is popped, and as many of those behind it as fill half of
/// the local queue move there, in order. If a stealer still protects slots, only the others are
/// filled.
pub proof fn pop_prefers_global<T>(queue: QueueView<T>, local: LocalView<T>, moved: int)
    requires
        queue.wf(),
        0 <= local.index < queue.rings.len(),
        local.lifo_slot is None,
        queue.rings[local.index].ready.len() == 0,
        !queue.stealing_global,
        queue.global.len() > 0,
        // As many as are there, as fill half of the local queue, and as there are free slots:
        0 <= moved < queue.global.len(),
        2 * moved <= queue.rings[local.index].capacity,
        moved + queue.rings[local.index].claimed.len() <= queue.rings[local.index].capacity,
        // None more:
        ({
            ||| moved + 1 == queue.global.len()
            ||| 2 * (moved + 1) > queue.rings[local.index].capacity
            ||| moved + queue.rings[local.index].claimed.len()
                == queue.rings[local.index].capacity
        }),
    ensures
        ({
            let ring = queue.rings[local.index];
            let popped = queue.pop(local);
            let after = popped.queue.rings[local.index];
            &&& popped.item == Some(queue.global[0])
            &&& after.ready.len() == moved
            &&& differs_in_ready(ring, after)
            &&& queue.global == seq![queue.global[0]] + after.ready + popped.queue.global
            &&& differs_at(queue, popped.queue, local.index)
            &&& popped.local == local
        }),
{
    let popped = queue.pop(local);
    let after = popped.queue.rings[local.index];
    assert(queue.rings[local.index].wf());
    assert(queue.refill_limit(local.index) == moved || moved + 1 == queue.global.len());
    assert(queue.global =~= seq![queue.global[0]] + after.ready + popped.queue.global);
}

/// How many siblings are looked at before `victim` in a search of `queues` local queues that starts
/// from `start`.
pub open spec fn looked_at_before(queues: nat, start: int, victim: int) -> int {
    if start <= victim {
        victim - start
    } else {
        victim - start + queues
    }
}

proof fn lemma_first_victim<T>(
    rings: Seq<RingView<T>>,
    index: int,
    start: int,
    victim: int,
    visited: int,
)
    requires
        0 <= start < rings.len(),
        0 <= victim < rings.len(),
        victim != index,
        rings[victim].claimed.len() == 0,
        rings[victim].ready.len() > 0,
        0 <= visited <= looked_at_before(rings.len(), start, victim),
        forall|i: int|
            0 <= i < rings.len() && i != index && looked_at_before(rings.len(), start, i)
                < looked_at_before(rings.len(), start, victim) ==> (
            #[trigger] rings[i]).claimed.len() > 0 || rings[i].ready.len() == 0,
    ensures
        first_victim(rings, index, start, visited) == Some(victim),
    decreases rings.len() - visited,
{
    if visited < looked_at_before(rings.len(), start, victim) {
        let i = if start + visited < rings.len() {
            start + visited
        } else {
            start + visited - rings.len()
        };
        assert(looked_at_before(rings.len(), start, i) == visited);
        assert(i == index || rings[i].claimed.len() > 0 || rings[i].ready.len() == 0);
        lemma_first_victim(rings, index, start, victim, visited + 1);
    }
}

/// A local queue without items that cannot have any from the global queue steals from the first
/// sibling that has some and that no other is stealing from, in the order of the local queues from
/// a random one on. Half of the sibling's items, rounded up, are taken from its front: the first is
/// popped, and those behind it move to the local queue, in order. If a stealer still protects
/// slots, no more are taken than there are free slots for.
pub proof fn pop_steals_half<T>(
    queue: QueueView<T>,
    local: LocalView<T>,
    victim: int,
    stolen: int,
)
    requires
        queue.wf(),
        0 <= local.index < queue.rings.len(),
        local.lifo_slot is None,
        queue.rings[local.index].ready.len() == 0,
        queue.stealing_global || queue.global.len() == 0,
        // The first that can be stolen from:
        0 <= victim < queue.rings.len(),
        victim != local.index,
        queue.rings[victim].claimed.len() == 0,
        queue.rings[victim].ready.len() > 0,
        forall|i: int|
            0 <= i < queue.rings.len() && i != local.index && looked_at_before(
                queue.rings.len(),
                pick(local.rng, queue.rings.len() as usize),
                i,
            ) < looked_at_before(
                queue.rings.len(),
                pick(local.rng, queue.rings.len() as usize),
                victim,
            ) ==> (#[trigger] queue.rings[i]).claimed.len() > 0 || queue.rings[i].ready.len() == 0,
        // As many as are left, or one more, and none more than fit:
        1 <= stolen <= queue.rings[victim].ready.len(),
        2 * stolen <= queue.rings[victim].ready.len() + 1,
        stolen - 1 + queue.rings[local.index].claimed.len() <= queue.rings[local.index].capacity,
        ({
            ||| 2 * stolen >= queue.rings[victim].ready.len()
            ||| stolen - 1 + queue.rings[local.index].claimed.len()
                == queue.rings[local.index].capacity
        }),
    ensures
        ({
            let to = queue.rings[local.index];
            let from = queue.rings[victim];
            let popped = queue.pop(local);
            let filled = popped.queue.rings[local.index];
            let robbed = popped.queue.rings[victim];
            &&& popped.item == Some(from.ready[0])
            &&& filled.ready.len() == stolen - 1
            &&& differs_in_ready(to, filled)
            &&& from.ready == seq![from.ready[0]] + filled.ready + robbed.ready
            &&& front_is_free(from, robbed, stolen)
            &&& popped.queue.global == queue.global
            &&& differs_at(
                QueueView { rings: queue.rings.update(victim, robbed), ..queue },
                popped.queue,
                local.index,
            )
            &&& popped.local == (LocalView {
                rng: pick_state(local.rng, queue.rings.len() as usize),
                ..local
            })
        }),
{
    let start = pick(local.rng, queue.rings.len() as usize);
    lemma_pick_in_range(local.rng, queue.rings.len() as usize);
    lemma_first_victim(queue.rings, local.index, start, victim, 0);
    let to = queue.rings[local.index];
    let from = queue.rings[victim];
    assert(to.wf() && from.wf());
    let popped = queue.pop(local);
    assert(queue.steal_count(local.index, victim) == stolen);
    let filled = popped.queue.rings[local.index];
    let robbed = popped.queue.rings[victim];
    assert(from.ready =~= seq![from.ready[0]] + filled.ready + robbed.ready);
    assert(from.ready =~= from.ready.take(stolen) + robbed.ready);
}

/// A local queue without items that cannot steal from a sibling either pops the first item of the
/// global queue alone, although another is stealing from it. If there is none, it pops nothing.
/// Apart from its generator, nothing else changes.
pub proof fn pop_resorts_to_global<T>(queue: QueueView<T>, local: LocalView<T>)
    requires
        queue.wf(),
        0 <= local.index < queue.rings.len(),
        local.lifo_slot is None,
        queue.rings[local.index].ready.len() == 0,
        queue.stealing_global || queue.global.len() == 0,
        forall|i: int|
            0 <= i < queue.rings.len() && i != local.index ==> (
            #[trigger] queue.rings[i]).claimed.len() > 0 || queue.rings[i].ready.len() == 0,
    ensures
        ({
            let popped = queue.pop(local);
            &&& queue.global.len() == 0 ==> popped.item is None && popped.queue.global.len() == 0
            &&& queue.global.len() > 0 ==> popped.item == Some(queue.global[0]) && queue.global
                == seq![queue.global[0]] + popped.queue.global
            &&& popped.queue.rings == queue.rings
            &&& differs_at(queue, popped.queue, -1)
            &&& popped.local == (LocalView {
                rng: pick_state(local.rng, queue.rings.len() as usize),
                ..local
            })
        }),
{
    let popped = queue.pop(local);
    assert(nothing_to_steal(queue.rings, local.index));
    lemma_pick_in_range(local.rng, queue.rings.len() as usize);
    search_finds_victim(
        queue.rings,
        local.index,
        pick(local.rng, queue.rings.len() as usize),
    );
    if queue.global.len() > 0 {
        assert(queue.global =~= seq![queue.global[0]] + popped.queue.global);
    }
}

/// A queue after items were pushed past the LIFO slot of one of its local queues, one after the
/// other.
pub open spec fn after_push_yields<T>(
    queue: QueueView<T>,
    index: int,
    items: Seq<T>,
) -> QueueView<T>
    decreases items.len(),
{
    if items.len() == 0 {
        queue
    } else {
        after_push_yields(queue, index, items.drop_last()).push_yield(index, items.last())
    }
}

/// A queue after items were pushed to it, one after the other.
pub open spec fn after_pushes<T>(queue: QueueView<T>, items: Seq<T>) -> QueueView<T>
    decreases items.len(),
{
    if items.len() == 0 {
        queue
    } else {
        after_pushes(queue, items.drop_last()).push(items.last())
    }
}

/// As many items as a local queue has free slots can be pushed past its LIFO slot before anything
/// reaches the global queue.
pub proof fn free_slots_are_filled<T>(queue: QueueView<T>, index: int, items: Seq<T>)
    requires
        0 <= index < queue.rings.len(),
        queue.rings[index].claimed.len() + queue.rings[index].ready.len() + items.len()
            <= queue.rings[index].capacity,
    ensures
        ({
            let after = after_push_yields(queue, index, items);
            &&& after.rings[index].ready == queue.rings[index].ready + items
            &&& differs_in_ready(queue.rings[index], after.rings[index])
            &&& after.global == queue.global
            &&& differs_at(queue, after, index)
        }),
    decreases items.len(),
{
    let after = after_push_yields(queue, index, items);
    if items.len() > 0 {
        let before = after_push_yields(queue, index, items.drop_last());
        free_slots_are_filled(queue, index, items.drop_last());
        push_yield_goes_behind(before, index, items.last());
    }
    assert(after.rings[index].ready =~= queue.rings[index].ready + items);
}

/// As many items as the size that a new queue was made with can be pushed past the LIFO slot of
/// one of its local queues before anything reaches the global queue. One more, and half of them do.
pub proof fn new_queue_holds_its_size<T>(
    id: Identity,
    local_queues: nat,
    local_queue_size: nat,
    index: int,
    items: Seq<T>,
    item: T,
)
    requires
        0 <= index < local_queues,
        items.len() <= local_queue_size,
    ensures
        ({
            let queue = QueueView::<T>::empty(id, local_queues, local_queue_size);
            let after = after_push_yields(queue, index, items);
            &&& after.rings[index].ready == items
            &&& after.global.len() == 0
            &&& items.len() == local_queue_size ==> after.push_yield(index, item).global
                == items.take(local_queue_size as int / 2) + seq![item]
        }),
{
    let queue = QueueView::<T>::empty(id, local_queues, local_queue_size);
    let after = after_push_yields(queue, index, items);
    new_queue_is_empty::<T>(id, local_queues, local_queue_size);
    free_slots_are_filled(queue, index, items);
    assert(after.rings[index].ready =~= items);
    if items.len() == local_queue_size {
        push_yield_overflows(after, index, item);
        assert(after.push_yield(index, item).global =~= items.take(local_queue_size as int / 2)
            + seq![item]);
    }
}

/// Items that are pushed past the LIFO slot are popped in the order in which they were pushed,
/// after those that were there before.
pub proof fn push_yields_come_out_in_order<T>(
    queue: QueueView<T>,
    local: LocalView<T>,
    items: Seq<T>,
    n: nat,
)
    requires
        0 <= local.index < queue.rings.len(),
        local.lifo_slot is None,
        queue.rings[local.index].claimed.len() + queue.rings[local.index].ready.len()
            + items.len() <= queue.rings[local.index].capacity,
        n < queue.rings[local.index].ready.len() + items.len(),
    ensures
        pop_after(after_push_yields(queue, local.index, items), local, n).item == Some(
            (queue.rings[local.index].ready + items)[n as int],
        ),
{
    free_slots_are_filled(queue, local.index, items);
    lemma_own_items_in_order(after_push_yields(queue, local.index, items), local, n);
}

proof fn lemma_own_items_in_order<T>(queue: QueueView<T>, local: LocalView<T>, n: nat)
    requires
        0 <= local.index < queue.rings.len(),
        local.lifo_slot is None,
        n < queue.rings[local.index].ready.len(),
    ensures
        pop_after(queue, local, n).item == Some(queue.rings[local.index].ready[n as int]),
    decreases n,
{
    pop_takes_own_front(queue, local);
    if n > 0 {
        let popped = queue.pop(local);
        let ready = queue.rings[local.index].ready;
        let rest = popped.queue.rings[local.index].ready;
        assert(ready[n as int] == (seq![ready[0]] + rest)[n as int]);
        lemma_own_items_in_order(popped.queue, local, (n - 1) as nat);
    }
}

/// Items that are pushed to the global queue are popped in the order in which they were pushed,
/// after those of the local queue and those that were there before, as long as there is nothing to
/// steal.
pub proof fn pushes_come_out_in_order<T>(
    queue: QueueView<T>,
    local: LocalView<T>,
    items: Seq<T>,
    n: nat,
)
    requires
        queue.wf(),
        0 <= local.index < queue.rings.len(),
        local.lifo_slot is None,
        forall|i: int|
            0 <= i < queue.rings.len() && i != local.index ==> (
            #[trigger] queue.rings[i]).claimed.len() > 0 || queue.rings[i].ready.len() == 0,
    ensures
        ({
            let all = queue.rings[local.index].ready + queue.global + items;
            pop_after(after_pushes(queue, items), local, n).item == if n < all.len() {
                Some(all[n as int])
            } else {
                None
            }
        }),
{
    let after = after_pushes(queue, items);
    lemma_after_pushes(queue, items);
    assert(nothing_to_steal(after.rings, local.index));
    pops_yield_all_pending(after, local, n);
    assert(pending(after, local) =~= queue.rings[local.index].ready + queue.global + items);
}

proof fn lemma_after_pushes<T>(queue: QueueView<T>, items: Seq<T>)
    requires
        queue.wf(),
    ensures
        after_pushes(queue, items).wf(),
        after_pushes(queue, items).rings == queue.rings,
        after_pushes(queue, items).global == queue.global + items,
    decreases items.len(),
{
    if items.len() > 0 {
        lemma_after_pushes(queue, items.drop_last());
    }
    assert(after_pushes(queue, items).global =~= queue.global + items);
}

} // verus!
