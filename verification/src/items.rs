//! Items are neither lost nor duplicated.
use vstd::multiset::Multiset;
use vstd::prelude::*;
use vstd::seq_lib::lemma_multiset_commutative;

use crate::model::{LocalView, QueueView, SearchView};
use crate::ring::RingView;
use crate::run::{finish, repeats_left, stages_left, step_keeps_finish, step_makes_progress};
use crate::system::step_keeps_belonging;

verus! {

/// The item that may be there.
pub open spec fn option_items<T>(item: Option<T>) -> Multiset<T> {
    match item {
        Some(item) => Multiset::singleton(item),
        None => Multiset::empty(),
    }
}

/// The items in slots.
pub open spec fn slot_items<T>(slots: Seq<Option<T>>) -> Multiset<T>
    decreases slots.len(),
{
    if slots.len() == 0 {
        Multiset::empty()
    } else {
        slot_items(slots.drop_last()).add(option_items(slots.last()))
    }
}

/// The items in the fixed-capacity queue of a local queue, whether they are claimed or not.
pub open spec fn ring_items<T>(ring: RingView<T>) -> Multiset<T> {
    slot_items(ring.claimed).add(ring.ready.to_multiset())
}

/// The items in the fixed-capacity queues of several local queues.
pub open spec fn rings_items<T>(rings: Seq<RingView<T>>) -> Multiset<T>
    decreases rings.len(),
{
    if rings.len() == 0 {
        Multiset::empty()
    } else {
        rings_items(rings.drop_last()).add(ring_items(rings.last()))
    }
}

/// The items that a search has in hand.
pub open spec fn search_items<T>(search: SearchView<T>) -> Multiset<T> {
    match search {
        SearchView::Refilling { first, batch, limit } => batch.to_multiset().insert(first),
        SearchView::Refilled { first, batch } => batch.to_multiset().insert(first),
        SearchView::Releasing { found } => option_items(found),
        SearchView::Finishing { victim, first, batch } => batch.to_multiset().insert(first),
        SearchView::Stolen { first, batch } => batch.to_multiset().insert(first),
        SearchView::Leaving { found } => option_items(found),
        _ => Multiset::empty(),
    }
}

/// The items that a local queue holds outside of the shared state.
pub open spec fn local_items<T>(local: LocalView<T>) -> Multiset<T> {
    option_items(local.lifo_slot).add(search_items(local.search))
}

/// The items that several local queues hold outside of the shared state.
pub open spec fn locals_items<T>(locals: Seq<LocalView<T>>) -> Multiset<T>
    decreases locals.len(),
{
    if locals.len() == 0 {
        Multiset::empty()
    } else {
        locals_items(locals.drop_last()).add(local_items(locals.last()))
    }
}

/// The items in the shared state.
pub open spec fn queue_items<T>(queue: QueueView<T>) -> Multiset<T> {
    queue.global.to_multiset().add(rings_items(queue.rings))
}

/// All items that a queue and its local queues hold.
pub open spec fn all_items<T>(queue: QueueView<T>, locals: Seq<LocalView<T>>) -> Multiset<T> {
    queue_items(queue).add(locals_items(locals))
}

proof fn lemma_rings_update<T>(rings: Seq<RingView<T>>, i: int, ring: RingView<T>)
    requires
        0 <= i < rings.len(),
    ensures
        forall|item: T| #[trigger]
            rings_items(rings.update(i, ring)).count(item) + ring_items(rings[i]).count(item)
                == rings_items(rings).count(item) + ring_items(ring).count(item),
    decreases rings.len(),
{
    broadcast use vstd::multiset::group_multiset_axioms;

    let updated = rings.update(i, ring);
    if i == rings.len() - 1 {
        assert(updated.drop_last() =~= rings.drop_last());
    } else {
        assert(updated.drop_last() =~= rings.drop_last().update(i, ring));
        lemma_rings_update(rings.drop_last(), i, ring);
        assert(rings.drop_last()[i] == rings[i]);
        assert(updated.last() == rings.last());
    }
    assert(rings_items(updated) == rings_items(updated.drop_last()).add(
        ring_items(updated.last()),
    ));
    assert(rings_items(rings) == rings_items(rings.drop_last()).add(ring_items(rings.last())));
}

proof fn lemma_locals_update<T>(locals: Seq<LocalView<T>>, i: int, local: LocalView<T>)
    requires
        0 <= i < locals.len(),
    ensures
        forall|item: T| #[trigger]
            locals_items(locals.update(i, local)).count(item) + local_items(locals[i]).count(item)
                == locals_items(locals).count(item) + local_items(local).count(item),
    decreases locals.len(),
{
    broadcast use vstd::multiset::group_multiset_axioms;

    let updated = locals.update(i, local);
    if i == locals.len() - 1 {
        assert(updated.drop_last() =~= locals.drop_last());
    } else {
        assert(updated.drop_last() =~= locals.drop_last().update(i, local));
        lemma_locals_update(locals.drop_last(), i, local);
        assert(locals.drop_last()[i] == locals[i]);
        assert(updated.last() == locals.last());
    }
    assert(locals_items(updated) == locals_items(updated.drop_last()).add(
        local_items(updated.last()),
    ));
    assert(locals_items(locals) == locals_items(locals.drop_last()).add(
        local_items(locals.last()),
    ));
}

proof fn lemma_drop_first<T>(s: Seq<T>)
    requires
        s.len() > 0,
    ensures
        s.to_multiset() == s.drop_first().to_multiset().insert(s[0]),
{
    assert(s =~= seq![s[0]] + s.drop_first());
    lemma_multiset_commutative(seq![s[0]], s.drop_first());
    lemma_push(Seq::<T>::empty(), s[0]);
    assert(Seq::<T>::empty().push(s[0]) =~= seq![s[0]]);
    assert(s.to_multiset() =~= s.drop_first().to_multiset().insert(s[0]));
}

proof fn lemma_push<T>(s: Seq<T>, item: T)
    ensures
        s.push(item).to_multiset() == s.to_multiset().insert(item),
        Seq::<T>::empty().to_multiset() == Multiset::<T>::empty(),
{
    s.to_multiset_ensures();
    Seq::<T>::empty().to_multiset_ensures();
    assert(Seq::<T>::empty().to_multiset() =~= Multiset::<T>::empty());
}

proof fn lemma_pop<T>(ring: RingView<T>)
    requires
        ring.ready.len() > 0,
    ensures
        ring_items(ring) == ring_items(ring.pop()).insert(ring.ready[0]),
{
    lemma_drop_first(ring.ready);
    assert(ring.claimed.push(None).drop_last() =~= ring.claimed);
    assert(ring_items(ring) =~= ring_items(ring.pop()).insert(ring.ready[0]));
}

proof fn lemma_append<T>(ring: RingView<T>, items: Seq<T>)
    ensures
        ring_items(ring.append(items)) == ring_items(ring).add(items.to_multiset()),
{
    lemma_multiset_commutative(ring.ready, items);
    assert(ring_items(ring.append(items)) =~= ring_items(ring).add(items.to_multiset()));
}

proof fn lemma_skip<T>(ring: RingView<T>, n: int)
    requires
        0 <= n <= ring.ready.len(),
    ensures
        ring_items(ring) == ring_items(ring.skip(n)).add(ring.ready.take(n).to_multiset()),
{
    assert(ring.ready =~= ring.ready.take(n) + ring.ready.skip(n));
    lemma_multiset_commutative(ring.ready.take(n), ring.ready.skip(n));
    assert(ring_items(ring) =~= ring_items(ring.skip(n)).add(ring.ready.take(n).to_multiset()));
}

proof fn lemma_slots_of_items<T>(items: Seq<T>)
    ensures
        slot_items(items.map_values(|item: T| Some(item))) == items.to_multiset(),
    decreases items.len(),
{
    let slots = items.map_values(|item: T| Some(item));
    if items.len() == 0 {
        lemma_push(items, arbitrary());
        assert(items =~= Seq::<T>::empty());
    } else {
        lemma_slots_of_items(items.drop_last());
        assert(slots.drop_last() =~= items.drop_last().map_values(|item: T| Some(item)));
        lemma_push(items.drop_last(), items.last());
        assert(items.drop_last().push(items.last()) =~= items);
        assert(slot_items(slots) =~= items.to_multiset());
    }
}

proof fn lemma_claim<T>(ring: RingView<T>, n: int)
    requires
        ring.claimed.len() == 0,
        0 <= n <= ring.ready.len(),
    ensures
        ring_items(ring.claim(n)) == ring_items(ring),
{
    lemma_skip(ring, n);
    lemma_slots_of_items(ring.ready.take(n));
    assert(ring_items(ring.claim(n)) =~= ring_items(ring));
}

proof fn lemma_slots_taken<T>(slots: Seq<Option<T>>, taken: Seq<Option<T>>, n: int)
    requires
        0 <= n <= slots.len(),
        taken.len() == slots.len(),
        forall|i: int| 0 <= i < n ==> (#[trigger] slots[i]) is Some,
        forall|i: int| 0 <= i < n ==> (#[trigger] taken[i]) is None,
        forall|i: int| n <= i < slots.len() ==> #[trigger] taken[i] == slots[i],
    ensures
        slot_items(slots) == slot_items(taken).add(
            slots.take(n).map_values(|slot: Option<T>| slot->0).to_multiset(),
        ),
    decreases slots.len(),
{
    let items = slots.take(n).map_values(|slot: Option<T>| slot->0);
    if slots.len() == 0 {
        lemma_push(items, arbitrary());
        assert(items =~= Seq::<T>::empty());
        assert(slot_items(slots) =~= slot_items(taken).add(items.to_multiset()));
    } else if n == slots.len() {
        lemma_slots_taken(slots.drop_last(), taken.drop_last(), n - 1);
        let fewer = slots.drop_last().take(n - 1).map_values(|slot: Option<T>| slot->0);
        lemma_push(fewer, items.last());
        assert(fewer.push(items.last()) =~= items);
        assert(slots.last() == Some(items.last()));
        assert(slot_items(slots) =~= slot_items(taken).add(items.to_multiset()));
    } else {
        lemma_slots_taken(slots.drop_last(), taken.drop_last(), n);
        assert(slots.drop_last().take(n) =~= slots.take(n));
        assert(slot_items(slots) =~= slot_items(taken).add(items.to_multiset()));
    }
}

proof fn lemma_take_claimed<T>(ring: RingView<T>, n: int)
    requires
        ring.holds_claimed(n),
    ensures
        ring_items(ring) == ring_items(ring.take_claimed(n)).add(
            ring.claimed_items(n).to_multiset(),
        ),
{
    lemma_slots_taken(ring.claimed, ring.take_claimed(n).claimed, n);
    assert(ring_items(ring) =~= ring_items(ring.take_claimed(n)).add(
        ring.claimed_items(n).to_multiset(),
    ));
}

proof fn lemma_empty_slots<T>(slots: Seq<Option<T>>)
    requires
        forall|i: int| 0 <= i < slots.len() ==> (#[trigger] slots[i]) is None,
    ensures
        slot_items(slots) == Multiset::<T>::empty(),
    decreases slots.len(),
{
    if slots.len() > 0 {
        lemma_empty_slots(slots.drop_last());
        assert(slot_items(slots) =~= Multiset::<T>::empty());
    }
}

proof fn lemma_release<T>(ring: RingView<T>)
    requires
        ring.empty_beyond(0),
    ensures
        ring_items(ring.release()) == ring_items(ring),
{
    lemma_empty_slots(ring.claimed);
    assert(ring_items(ring.release()) =~= ring_items(ring));
}

/// The items in the shared state and in the hands of one local queue.
spec fn items_with<T>(queue: QueueView<T>, local: LocalView<T>) -> Multiset<T> {
    queue_items(queue).add(local_items(local))
}

proof fn lemma_step_keeps_items<T>(queue: QueueView<T>, local: LocalView<T>)
    requires
        queue.wf(),
        local.belongs_to(queue),
    ensures
        ({
            let stepped = local.step(queue);
            items_with(queue, local) == items_with(stepped.queue, stepped.local).add(
                match stepped.outcome {
                    Some(item) => option_items(item),
                    None => Multiset::empty(),
                },
            )
        }),
{
    broadcast use vstd::multiset::group_multiset_axioms;

    let stepped = local.step(queue);
    let outcome = match stepped.outcome {
        Some(item) => option_items(item),
        None => Multiset::empty(),
    };
    let ring = queue.rings[local.index];
    if queue.global.len() > 0 {
        lemma_drop_first(queue.global);
    }
    match local.search {
        SearchView::Idle => {
            if local.lifo_slot is None && ring.ready.len() > 0 {
                lemma_rings_update(queue.rings, local.index, ring.pop());
                lemma_pop(ring);
            }
        },
        SearchView::Popping => {
            lemma_push(Seq::<T>::empty(), arbitrary());
        },
        SearchView::Refilling { first, batch, limit } => {
            if queue.global.len() > 0 {
                lemma_push(batch, queue.global[0]);
            }
        },
        SearchView::Refilled { first, batch } => {
            lemma_rings_update(queue.rings, local.index, ring.append(batch));
            lemma_append(ring, batch);
        },
        SearchView::Stolen { first, batch } => {
            lemma_rings_update(queue.rings, local.index, ring.append(batch));
            lemma_append(ring, batch);
        },
        SearchView::Probing { start, visited } => {
            if stepped.local.search is Copying {
                let victim = stepped.local.search->Copying_victim;
                let count = stepped.local.search->Copying_count;
                lemma_rings_update(queue.rings, victim, queue.rings[victim].claim(count));
                lemma_claim(queue.rings[victim], count);
            }
        },
        SearchView::Copying { victim, count } => {
            let from = queue.rings[victim];
            lemma_rings_update(queue.rings, victim, from.take_claimed(count));
            lemma_take_claimed(from, count);
            lemma_drop_first(from.claimed_items(count));
        },
        SearchView::Finishing { victim, first, batch } => {
            lemma_rings_update(queue.rings, victim, queue.rings[victim].release());
            lemma_release(queue.rings[victim]);
        },
        _ => {},
    }
    assert(items_with(queue, local) =~= items_with(stepped.queue, stepped.local).add(outcome));
}

proof fn lemma_finish_keeps_items<T>(queue: QueueView<T>, local: LocalView<T>)
    requires
        queue.wf(),
        local.belongs_to(queue),
    ensures
        ({
            let popped = finish(queue, local);
            items_with(queue, local) == items_with(popped.queue, popped.local).add(
                option_items(popped.item),
            )
        }),
    decreases stages_left(local.search), repeats_left(queue, local.search),
{
    let stepped = local.step(queue);
    lemma_step_keeps_items(queue, local);
    step_keeps_finish(queue, local);
    if stepped.outcome is None {
        step_makes_progress(queue, local);
        step_keeps_belonging(queue, local);
        lemma_finish_keeps_items(stepped.queue, stepped.local);
        assert(items_with(stepped.queue, stepped.local).add(Multiset::empty()) =~= items_with(
            stepped.queue,
            stepped.local,
        ));
    }
}

proof fn lemma_push_yield_keeps_items<T>(queue: QueueView<T>, index: int, item: T)
    requires
        queue.wf(),
        0 <= index < queue.rings.len(),
    ensures
        queue_items(queue.push_yield(index, item)) == queue_items(queue).insert(item),
{
    broadcast use vstd::multiset::group_multiset_axioms;

    let after = queue.push_yield(index, item);
    let ring = queue.rings[index];
    let half = ring.capacity as int / 2;
    if ring.room() > 0 {
        lemma_rings_update(queue.rings, index, ring.append(seq![item]));
        lemma_append(ring, seq![item]);
        lemma_push(Seq::<T>::empty(), item);
        assert(Seq::<T>::empty().push(item) =~= seq![item]);
    } else if ring.claimed.len() == 0 {
        lemma_rings_update(queue.rings, index, ring.skip(half));
        lemma_skip(ring, half);
        lemma_push(queue.global + ring.ready.take(half), item);
        lemma_multiset_commutative(queue.global, ring.ready.take(half));
    } else {
        lemma_push(queue.global, item);
    }
    assert(queue_items(after) =~= queue_items(queue).insert(item));
}

/// What balances for one local queue balances for all of them.
proof fn lemma_balance_all<T>(
    before: QueueView<T>,
    after: QueueView<T>,
    locals: Seq<LocalView<T>>,
    i: int,
    local: LocalView<T>,
    more: Multiset<T>,
    less: Multiset<T>,
)
    requires
        0 <= i < locals.len(),
        items_with(before, locals[i]).add(more) == items_with(after, local).add(less),
    ensures
        all_items(before, locals).add(more) == all_items(after, locals.update(i, local)).add(less),
{
    broadcast use vstd::multiset::group_multiset_axioms;

    lemma_locals_update(locals, i, local);
    let updated = locals.update(i, local);
    let left = all_items(before, locals).add(more);
    let right = all_items(after, updated).add(less);
    assert forall|item: T| #[trigger] left.count(item) == right.count(item) by {
        let shared_before = queue_items(before).count(item);
        let shared_after = queue_items(after).count(item);
        assert(left.count(item) == shared_before + locals_items(locals).count(item) + more.count(
            item,
        ));
        assert(right.count(item) == shared_after + locals_items(updated).count(item) + less.count(
            item,
        ));
        assert(items_with(before, locals[i]).add(more).count(item) == shared_before + local_items(
            locals[i],
        ).count(item) + more.count(item));
        assert(items_with(after, local).add(less).count(item) == shared_after + local_items(
            local,
        ).count(item) + less.count(item));
    }
    assert(left =~= right);
}

/// Pushing an item to the global queue adds that item, and changes nothing else about which items
/// there are.
pub proof fn push_global_adds_item<T>(queue: QueueView<T>, locals: Seq<LocalView<T>>, item: T)
    ensures
        all_items(queue.push(item), locals) == all_items(queue, locals).insert(item),
{
    broadcast use vstd::multiset::group_multiset_axioms;

    lemma_push(queue.global, item);
    assert(all_items(queue.push(item), locals) =~= all_items(queue, locals).insert(item));
}

/// Pushing an item past the LIFO slot of a local queue adds that item, and changes nothing else
/// about which items there are.
pub proof fn push_yield_adds_item<T>(
    queue: QueueView<T>,
    locals: Seq<LocalView<T>>,
    i: int,
    item: T,
)
    requires
        queue.wf(),
        0 <= i < locals.len(),
        locals[i].belongs_to(queue),
    ensures
        all_items(queue.push_yield(locals[i].index, item), locals) == all_items(
            queue,
            locals,
        ).insert(item),
{
    broadcast use vstd::multiset::group_multiset_axioms;

    lemma_push_yield_keeps_items(queue, locals[i].index, item);
    assert(all_items(queue.push_yield(locals[i].index, item), locals) =~= all_items(
        queue,
        locals,
    ).insert(item));
}

/// Pushing an item to a local queue adds that item, and changes nothing else about which items
/// there are.
pub proof fn push_adds_item<T>(queue: QueueView<T>, locals: Seq<LocalView<T>>, i: int, item: T)
    requires
        queue.wf(),
        0 <= i < locals.len(),
        locals[i].belongs_to(queue),
    ensures
        ({
            let (after, local) = locals[i].push(queue, item);
            all_items(after, locals.update(i, local)) == all_items(queue, locals).insert(item)
        }),
{
    broadcast use vstd::multiset::group_multiset_axioms;

    let (after, local) = locals[i].push(queue, item);
    if let Some(previous) = locals[i].lifo_slot {
        lemma_push_yield_keeps_items(queue, locals[i].index, previous);
    }
    lemma_locals_update(locals, i, local);
    assert(all_items(after, locals.update(i, local)) =~= all_items(queue, locals).insert(item));
}

/// A step of a search neither loses nor duplicates an item: all items that there were are still
/// there, but for the outcome of the search, once it is over.
pub proof fn step_keeps_items<T>(queue: QueueView<T>, locals: Seq<LocalView<T>>, i: int)
    requires
        queue.wf(),
        0 <= i < locals.len(),
        locals[i].belongs_to(queue),
    ensures
        ({
            let stepped = locals[i].step(queue);
            all_items(queue, locals) == all_items(
                stepped.queue,
                locals.update(i, stepped.local),
            ).add(
                match stepped.outcome {
                    Some(item) => option_items(item),
                    None => Multiset::empty(),
                },
            )
        }),
{
    broadcast use vstd::multiset::group_multiset_axioms;

    let stepped = locals[i].step(queue);
    let outcome = match stepped.outcome {
        Some(item) => option_items(item),
        None => Multiset::empty(),
    };
    lemma_step_keeps_items(queue, locals[i]);
    assert(items_with(queue, locals[i]).add(Multiset::empty()) =~= items_with(queue, locals[i]));
    lemma_balance_all(queue, stepped.queue, locals, i, stepped.local, Multiset::empty(), outcome);
    assert(all_items(queue, locals).add(Multiset::empty()) =~= all_items(queue, locals));
}

/// Popping neither loses nor duplicates an item: all items that there were are still there, but for
/// the one that was popped.
pub proof fn pop_keeps_items<T>(queue: QueueView<T>, locals: Seq<LocalView<T>>, i: int)
    requires
        queue.wf(),
        0 <= i < locals.len(),
        locals[i].belongs_to(queue),
        locals[i].search is Idle,
    ensures
        ({
            let popped = queue.pop(locals[i]);
            all_items(queue, locals) == all_items(
                popped.queue,
                locals.update(i, popped.local),
            ).add(option_items(popped.item))
        }),
{
    broadcast use vstd::multiset::group_multiset_axioms;

    let popped = queue.pop(locals[i]);
    lemma_finish_keeps_items(queue, locals[i]);
    assert(items_with(queue, locals[i]).add(Multiset::empty()) =~= items_with(queue, locals[i]));
    lemma_balance_all(
        queue,
        popped.queue,
        locals,
        i,
        popped.local,
        Multiset::empty(),
        option_items(popped.item),
    );
    assert(all_items(queue, locals).add(Multiset::empty()) =~= all_items(queue, locals));
}

} // verus!
