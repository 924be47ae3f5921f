//! What the operations on the fixed-capacity queue of a local queue do to its slots.
use vstd::arithmetic::power2::{lemma2_to64, pow2};
use vstd::prelude::*;

use crate::ring::{is_queue_size, RingView};

verus! {

/// The sizes that a local queue can have are the powers of two that fit in a `u16`.
pub proof fn sizes_are_powers_of_two(size: int)
    ensures
        is_queue_size(size) <==> exists|k: nat| k < 16 && size == #[trigger] pow2(k),
{
    lemma2_to64();
    if is_queue_size(size) {
        let k: nat = if size == 0x1 {
            0
        } else if size == 0x2 {
            1
        } else if size == 0x4 {
            2
        } else if size == 0x8 {
            3
        } else if size == 0x10 {
            4
        } else if size == 0x20 {
            5
        } else if size == 0x40 {
            6
        } else if size == 0x80 {
            7
        } else if size == 0x100 {
            8
        } else if size == 0x200 {
            9
        } else if size == 0x400 {
            10
        } else if size == 0x800 {
            11
        } else if size == 0x1000 {
            12
        } else if size == 0x2000 {
            13
        } else if size == 0x4000 {
            14
        } else {
            15
        };
        assert(size == pow2(k));
    }
    if exists|k: nat| k < 16 && size == #[trigger] pow2(k) {
        let k = choose|k: nat| k < 16 && size == #[trigger] pow2(k);
        assert(k == 0 || k == 1 || k == 2 || k == 3 || k == 4 || k == 5 || k == 6 || k == 7 || k
            == 8 || k == 9 || k == 10 || k == 11 || k == 12 || k == 13 || k == 14 || k == 15);
    }
}

/// A queue is in order if and only if its size is a power of two and it holds no more than that,
/// counting the slots that are claimed.
pub proof fn order_is_size_and_room<T>(ring: RingView<T>)
    ensures
        ring.wf() <==> {
            &&& exists|k: nat| k < 16 && ring.capacity == #[trigger] pow2(k)
            &&& ring.claimed.len() + ring.ready.len() <= ring.capacity
        },
{
    sizes_are_powers_of_two(ring.capacity as int);
}

/// A new queue has all of its slots free, and its positions start from zero.
pub proof fn new_ring_is_free<T>(size: nat)
    ensures
        RingView::<T>::empty(size).capacity == size,
        RingView::<T>::empty(size).protected_head == 0,
        RingView::<T>::empty(size).claimed.len() == 0,
        RingView::<T>::empty(size).ready.len() == 0,
        RingView::<T>::empty(size).room() == size,
{
}

/// The claimed slots, the ready items and the room make up the capacity. The positions are as far
/// apart as there are slots between them, where they wrap around.
pub proof fn positions_count_slots<T>(ring: RingView<T>)
    ensures
        ring.claimed.len() + ring.ready.len() + ring.room() == ring.capacity,
        ring.head() == (ring.protected_head + ring.claimed.len()) % 0x1_0000,
        ring.tail() == (ring.protected_head + ring.claimed.len() + ring.ready.len()) % 0x1_0000,
{
}

/// Items that are put into the queue stand behind all others, in order, and nothing else moves.
pub proof fn append_goes_behind<T>(ring: RingView<T>, items: Seq<T>)
    ensures
        ring.append(items).ready == ring.ready + items,
        ring.append(items).claimed == ring.claimed,
        ring.append(items).protected_head == ring.protected_head,
        ring.append(items).capacity == ring.capacity,
{
}

/// The owner takes the item at the front. The slot becomes free at once if no stealer is at work,
/// and otherwise stays between the heads, without an item.
pub proof fn pop_takes_front<T>(ring: RingView<T>)
    requires
        ring.ready.len() > 0,
    ensures
        seq![ring.ready[0]] + ring.pop().ready == ring.ready,
        ring.pop().capacity == ring.capacity,
        ring.claimed.len() == 0 ==> ring.pop().claimed.len() == 0 && ring.pop().protected_head == (
        ring.protected_head + 1) % 0x1_0000,
        ring.claimed.len() > 0 ==> ring.pop().claimed == ring.claimed.push(None)
            && ring.pop().protected_head == ring.protected_head,
{
    assert(seq![ring.ready[0]] + ring.pop().ready =~= ring.ready);
}

/// Items that overflow leave from the front, and their slots become free.
pub proof fn skip_frees_front<T>(ring: RingView<T>, n: int)
    requires
        0 <= n <= ring.ready.len(),
    ensures
        ring.ready.take(n) + ring.skip(n).ready == ring.ready,
        ring.skip(n).claimed == ring.claimed,
        ring.skip(n).protected_head == (ring.protected_head + n) % 0x1_0000,
        ring.skip(n).capacity == ring.capacity,
{
    assert(ring.ready.take(n) + ring.skip(n).ready =~= ring.ready);
}

/// A stealer claims items from the front. They stay in their slots, in order, and no slot becomes
/// free.
pub proof fn claim_keeps_slots<T>(ring: RingView<T>, n: int)
    requires
        ring.claimed.len() == 0,
        0 <= n <= ring.ready.len(),
    ensures
        ring.claim(n).claimed.len() == n,
        forall|i: int| 0 <= i < n ==> #[trigger] ring.claim(n).claimed[i] == Some(ring.ready[i]),
        ring.claim(n).ready.len() == ring.ready.len() - n,
        forall|i: int|
            0 <= i < ring.ready.len() - n ==> #[trigger] ring.claim(n).ready[i] == ring.ready[n
                + i],
        ring.claim(n).protected_head == ring.protected_head,
        ring.claim(n).capacity == ring.capacity,
        ring.claim(n).room() == ring.room(),
{
}

/// A stealer takes items out of the slots that it claimed, the first one first. The slots stay
/// between the heads.
pub proof fn take_claimed_empties_slots<T>(ring: RingView<T>, n: int)
    requires
        0 <= n <= ring.claimed.len(),
        forall|i: int| 0 <= i < n ==> (#[trigger] ring.claimed[i]) is Some,
    ensures
        ring.holds_claimed(n),
        ring.claimed_items(n).len() == n,
        forall|i: int|
            0 <= i < n ==> Some(#[trigger] ring.claimed_items(n)[i]) == ring.claimed[i],
        ring.take_claimed(n).claimed.len() == ring.claimed.len(),
        forall|i: int|
            0 <= i < ring.claimed.len() ==> #[trigger] ring.take_claimed(n).claimed[i] == if i
                < n {
                None
            } else {
                ring.claimed[i]
            },
        ring.take_claimed(n).ready == ring.ready,
        ring.take_claimed(n).protected_head == ring.protected_head,
        ring.take_claimed(n).capacity == ring.capacity,
{
}

/// Once the stealer is done, the slots between the heads are free, and nothing else moves.
pub proof fn release_frees_claimed<T>(ring: RingView<T>)
    ensures
        ring.release().claimed.len() == 0,
        ring.release().protected_head == (ring.protected_head + ring.claimed.len()) % 0x1_0000,
        ring.release().ready == ring.ready,
        ring.release().capacity == ring.capacity,
{
}

/// A stealer gets nothing while another is at work. Otherwise it gets as many items as it leaves,
/// or one more, unless that is more than it wants.
pub proof fn stealable_is_half<T>(ring: RingView<T>, most: int)
    ensures
        ring.claimed.len() > 0 ==> ring.stealable(most) == 0,
        ring.claimed.len() == 0 && 2 * most <= ring.ready.len() ==> ring.stealable(most) == most,
        ring.claimed.len() == 0 && 2 * most > ring.ready.len() ==> {
            let left = ring.ready.len() - ring.stealable(most);
            left <= ring.stealable(most) <= left + 1
        },
{
}

} // verus!
