//! The fixed-capacity queue owned by each local queue.
use std::collections::VecDeque;
use std::mem::ManuallyDrop;

use vstd::arithmetic::div_mod::{lemma_fundamental_div_mod, lemma_mod_multiples_vanish};
use vstd::prelude::*;

use crate::cell::UnsafeCell;
use crate::global::GlobalQueue;
use crate::heads::{pack_heads, real_head, stealer_head, unpack_heads, unpack_undoes_pack};

verus! {

/// Whether a local queue can have this size: the powers of two that fit in a `u16`.
pub open spec fn is_queue_size(size: int) -> bool {
    ||| size == 0x1 || size == 0x2 || size == 0x4 || size == 0x8
    ||| size == 0x10 || size == 0x20 || size == 0x40 || size == 0x80
    ||| size == 0x100 || size == 0x200 || size == 0x400 || size == 0x800
    ||| size == 0x1000 || size == 0x2000 || size == 0x4000 || size == 0x8000
}

/// The position `n` after another. Positions wrap around.
pub open spec fn advance(position: u16, n: int) -> u16 {
    ((position + n) % 0x1_0000) as u16
}

/// What the fixed-capacity queue of a local queue holds.
///
/// In the order of the slots, first come those between the stealer head and the real head, which
/// a stealer has claimed, then those between the real head and the tail, which hold the items that
/// can be popped.
#[verifier::ext_equal]
pub struct RingView<T> {
    /// How many slots there are.
    pub capacity: nat,
    /// Where the stealer head is.
    pub protected_head: u16,
    /// The slots between the two heads. The stealer empties those it has claimed. Those that the
    /// owner popped since are empty.
    pub claimed: Seq<Option<T>>,
    /// The items between the real head and the tail.
    pub ready: Seq<T>,
}

impl<T> RingView<T> {
    /// A queue of the given capacity without items.
    pub open spec fn empty(capacity: nat) -> Self {
        RingView { capacity, protected_head: 0, claimed: Seq::empty(), ready: Seq::empty() }
    }

    /// Where the real head is.
    pub open spec fn head(self) -> u16 {
        advance(self.protected_head, self.claimed.len() as int)
    }

    /// Where the tail is.
    pub open spec fn tail(self) -> u16 {
        advance(self.head(), self.ready.len() as int)
    }

    /// How many items can be pushed before the tail reaches the stealer head.
    pub open spec fn room(self) -> int {
        self.capacity - self.claimed.len() - self.ready.len()
    }

    /// What every queue keeps.
    pub open spec fn wf(self) -> bool {
        &&& is_queue_size(self.capacity as int)
        &&& self.room() >= 0
    }

    /// The queue with `items` put behind the tail.
    pub open spec fn append(self, items: Seq<T>) -> Self {
        RingView { ready: self.ready + items, ..self }
    }

    /// The queue without its first item. While a stealer is at work the slot stays protected.
    pub open spec fn pop(self) -> Self {
        RingView {
            protected_head: if self.claimed.len() == 0 {
                advance(self.protected_head, 1)
            } else {
                self.protected_head
            },
            claimed: if self.claimed.len() == 0 {
                self.claimed
            } else {
                self.claimed.push(None)
            },
            ready: self.ready.drop_first(),
            ..self
        }
    }

    /// The queue without its first `n` items, while no stealer is at work.
    pub open spec fn skip(self, n: int) -> Self {
        RingView {
            protected_head: advance(self.protected_head, n),
            ready: self.ready.skip(n),
            ..self
        }
    }

    /// The queue after a stealer has claimed its first `n` items.
    pub open spec fn claim(self, n: int) -> Self {
        RingView {
            claimed: self.ready.take(n).map_values(|item: T| Some(item)),
            ready: self.ready.skip(n),
            ..self
        }
    }

    /// Whether the first `n` slots between the heads hold items.
    pub open spec fn holds_claimed(self, n: int) -> bool {
        &&& 0 <= n <= self.claimed.len()
        &&& forall|i: int| 0 <= i < n ==> (#[trigger] self.claimed[i]) is Some
    }

    /// Whether the slots between the heads are empty but for the first `n`.
    pub open spec fn empty_beyond(self, n: int) -> bool {
        forall|i: int| n <= i < self.claimed.len() ==> (#[trigger] self.claimed[i]) is None
    }

    /// The items in the first `n` slots between the heads.
    pub open spec fn claimed_items(self, n: int) -> Seq<T> {
        self.claimed.take(n).map_values(|slot: Option<T>| slot->0)
    }

    /// The queue after the stealer has emptied the first `n` slots between the heads.
    pub open spec fn take_claimed(self, n: int) -> Self {
        RingView {
            claimed: Seq::new(
                self.claimed.len(),
                |i: int|
                    if i < n {
                        None
                    } else {
                        self.claimed[i]
                    },
            ),
            ..self
        }
    }

    /// The queue after the stealer head has caught up with the real head.
    pub open spec fn release(self) -> Self {
        RingView { protected_head: self.head(), claimed: Seq::empty(), ..self }
    }

    /// How many items a stealer claims that wants no more than `most`: half of them, rounded up.
    /// None while another stealer is at work.
    pub open spec fn stealable(self, most: int) -> int {
        let half = self.ready.len() - self.ready.len() / 2;
        if self.claimed.len() > 0 {
            0
        } else if half < most {
            half
        } else {
            most
        }
    }
}

/// The slot that the position `offset` after `base` falls on.
#[verifier::opaque]
spec fn slot_at(base: u16, offset: int, capacity: int) -> int {
    (base + offset) % capacity
}

/// How far `to` is ahead of `from`, where positions wrap around.
spec fn distance(from: u16, to: u16) -> int {
    if from <= to {
        to - from
    } else {
        to - from + 0x1_0000
    }
}

/// Slots can be counted from any position: positions wrap around a whole number of laps.
proof fn lemma_rebase(base: u16, position: u16, i: int, capacity: int)
    requires
        is_queue_size(capacity),
    ensures
        slot_at(position, i, capacity) == slot_at(base, distance(base, position) + i, capacity),
{
    reveal(slot_at);
    let c = capacity as u32;
    assert(0x1_0000u32 % c == 0) by (bit_vector)
        requires
            c == 0x1 || c == 0x2 || c == 0x4 || c == 0x8 || c == 0x10 || c == 0x20 || c == 0x40
                || c == 0x80 || c == 0x100 || c == 0x200 || c == 0x400 || c == 0x800 || c == 0x1000
                || c == 0x2000 || c == 0x4000 || c == 0x8000,
    ;
    lemma_fundamental_div_mod(0x1_0000, capacity);
    lemma_mod_multiples_vanish(0x1_0000int / capacity, position + i, capacity);
}

/// Positions that are less than a lap apart fall on different slots.
proof fn lemma_slots_differ(base: u16, capacity: int)
    requires
        capacity > 0,
    ensures
        forall|i: int| 0 <= #[trigger] slot_at(base, i, capacity) < capacity,
        forall|i: int, j: int|
            0 <= i < j < capacity ==> #[trigger] slot_at(base, i, capacity) != #[trigger] slot_at(
                base,
                j,
                capacity,
            ),
{
    reveal(slot_at);
    assert forall|i: int, j: int| 0 <= i < j < capacity implies #[trigger] slot_at(
        base,
        i,
        capacity,
    ) != #[trigger] slot_at(base, j, capacity) by {
        if slot_at(base, i, capacity) == slot_at(base, j, capacity) {
            lemma_fundamental_div_mod(base + i, capacity);
            lemma_fundamental_div_mod(base + j, capacity);
            let qi = (base + i) / capacity;
            let qj = (base + j) / capacity;
            assert(false) by (nonlinear_arith)
                requires
                    capacity * qj - capacity * qi == j - i,
                    0 < j - i < capacity,
            ;
        }
    }
}

/// The mask obtains the slot of a position.
proof fn lemma_mask(position: u16, mask: u16)
    requires
        is_queue_size(mask + 1),
    ensures
        (position & mask) as int == slot_at(position, 0, mask + 1),
        position & mask <= mask,
{
    reveal(slot_at);
    assert((position & mask) as int == position as int % (mask + 1)) by (bit_vector)
        requires
            mask == 0 || mask == 0x1 || mask == 0x3 || mask == 0x7 || mask == 0xf || mask == 0x1f
                || mask == 0x3f || mask == 0x7f || mask == 0xff || mask == 0x1ff || mask == 0x3ff
                || mask == 0x7ff || mask == 0xfff || mask == 0x1fff || mask == 0x3fff || mask
                == 0x7fff,
    ;
}

/// The fixed-capacity queue owned by each local queue. Its owner pushes and pops, and one stealer
/// at a time can take items from it.
pub struct LocalQueueInner<T> {
    /// The two heads (fronts) of the queue, packed into one word by `pack_heads` and
    /// `unpack_heads`.
    ///
    /// The first head, the "stealer" head, always lags behind the second head, the "real" head.
    /// Items are popped starting from the real head, but the space between the two heads still
    /// cannot be overwritten by the tail, as it's being read by a stealer.
    heads: u32,
    /// The back of the queue. Only moved by the owner.
    tail: u16,
    /// Bitmask applied to the head and tail to obtain the actual indices, so that they can be
    /// incremented and freely overflow outside of the range of the queue itself.
    mask: u16,
    /// The actual items in the queue. Those that are left when the queue goes away are not dropped.
    items: Vec<UnsafeCell<Option<ManuallyDrop<T>>>>,
}

/// The item that a slot may hold.
spec fn content<T>(slot: Option<ManuallyDrop<T>>) -> Option<T> {
    match slot {
        Some(item) => Some(item@),
        None => None,
    }
}

/// Where the heads and the tail of a queue are, and its mask.
#[derive(Debug)]
pub struct Positions {
    pub protected_head: u16,
    pub head: u16,
    pub tail: u16,
    pub mask: u16,
}

impl<T> View for LocalQueueInner<T> {
    type V = RingView<T>;

    closed spec fn view(&self) -> RingView<T> {
        RingView {
            capacity: self.items@.len(),
            protected_head: self.stealer(),
            claimed: Seq::new(self.n_claimed() as nat, |i: int| self.at(self.stealer(), i)),
            ready: Seq::new(self.n_ready() as nat, |i: int| self.at(self.head(), i)->0),
        }
    }
}

impl<T> LocalQueueInner<T> {
    #[verifier::opaque]
    spec fn stealer(self) -> u16 {
        stealer_head(self.heads)
    }

    #[verifier::opaque]
    spec fn head(self) -> u16 {
        real_head(self.heads)
    }

    spec fn n_claimed(self) -> int {
        distance(self.stealer(), self.head())
    }

    spec fn n_ready(self) -> int {
        distance(self.head(), self.tail)
    }

    /// What the slot holds that the position `offset` after `base` falls on.
    spec fn at(self, base: u16, offset: int) -> Option<T> {
        content(self.items@[slot_at(base, offset, self.items@.len() as int)]@)
    }

    #[verifier::opaque]
    spec fn has_slots(self) -> bool {
        &&& self.items@.len() == self.mask + 1
        &&& is_queue_size(self.mask + 1)
    }

    /// The tail never passes the stealer head by more than a lap, and every slot between the real
    /// head and the tail holds an item.
    pub closed spec fn wf(self) -> bool {
        &&& self.has_slots()
        &&& self.n_claimed() + self.n_ready() <= self.items@.len()
        &&& forall|i: int| 0 <= i < self.n_ready() ==> #[trigger] self.at(self.head(), i) is Some
    }

    proof fn lemma_size(self)
        requires
            self.has_slots(),
        ensures
            self.items@.len() == self.mask + 1,
            1 <= self.items@.len() <= 0x8000,
    {
        reveal(LocalQueueInner::has_slots);
    }

    proof fn lemma_rebase(self, base: u16, position: u16, i: int)
        requires
            self.has_slots(),
        ensures
            self.at(position, i) == self.at(base, distance(base, position) + i),
            slot_at(position, i, self.items@.len() as int) == slot_at(
                base,
                distance(base, position) + i,
                self.items@.len() as int,
            ),
    {
        reveal(LocalQueueInner::has_slots);
        lemma_rebase(base, position, i, self.items@.len() as int);
    }

    /// Create a queue without items.
    pub fn new(size: u16) -> (queue: Self)
        requires
            is_queue_size(size as int),
        ensures
            queue.wf(),
            queue@ == RingView::<T>::empty(size as nat),
    {
        let mut items: Vec<UnsafeCell<Option<ManuallyDrop<T>>>> = Vec::with_capacity(size as usize);
        while items.len() < size as usize
            invariant
                items.len() <= size,
            decreases size - items.len(),
        {
            items.push(UnsafeCell::new(None));
        }
        proof {
            reveal(LocalQueueInner::has_slots);
            reveal(LocalQueueInner::stealer);
            reveal(LocalQueueInner::head);
        }
        LocalQueueInner { heads: 0, tail: 0, mask: size - 1, items }
    }

    /// The stealer head and the real head.
    fn heads(&self) -> (heads: (u16, u16))
        ensures
            heads == (self.stealer(), self.head()),
    {
        proof {
            reveal(LocalQueueInner::stealer);
            reveal(LocalQueueInner::head);
        }
        unpack_heads(self.heads)
    }

    /// Move the heads.
    fn set_heads(&mut self, stealer: u16, head: u16)
        requires
            old(self).has_slots(),
        ensures
            final(self).stealer() == stealer,
            final(self).head() == head,
            final(self).has_slots(),
            final(self).tail == old(self).tail,
            final(self).items@ == old(self).items@,
    {
        self.heads = pack_heads(stealer, head);
        proof {
            reveal(LocalQueueInner::has_slots);
            reveal(LocalQueueInner::stealer);
            reveal(LocalQueueInner::head);
            unpack_undoes_pack(stealer, head);
        }
    }

    /// Move the tail.
    fn set_tail(&mut self, tail: u16)
        requires
            old(self).has_slots(),
        ensures
            final(self).stealer() == old(self).stealer(),
            final(self).head() == old(self).head(),
            final(self).has_slots(),
            final(self).tail == tail,
            final(self).items@ == old(self).items@,
    {
        self.tail = tail;
        proof {
            reveal(LocalQueueInner::has_slots);
            reveal(LocalQueueInner::stealer);
            reveal(LocalQueueInner::head);
        }
    }

    /// Put an item into the slot of a position.
    fn put(&mut self, position: u16, item: T)
        requires
            old(self).has_slots(),
        ensures
            final(self).has_slots(),
            final(self).stealer() == old(self).stealer(),
            final(self).head() == old(self).head(),
            final(self).tail == old(self).tail,
            final(self).items@.len() == old(self).items@.len(),
            forall|k: int|
                0 <= k < old(self).items@.len() ==> content((#[trigger] final(self).items@[k])@)
                    == if k == slot_at(position, 0, old(self).items@.len() as int) {
                    Some(item)
                } else {
                    content(old(self).items@[k]@)
                },
    {
        proof {
            reveal(LocalQueueInner::has_slots);
            reveal(LocalQueueInner::stealer);
            reveal(LocalQueueInner::head);
            lemma_mask(position, self.mask);
        }
        let i: usize = (position & self.mask) as usize;
        let kept: ManuallyDrop<T> = ManuallyDrop::new(item);
        self.items[i].with_mut(
            move |slot: &mut Option<ManuallyDrop<T>>|
                ensures
                    *final(slot) == Some(kept)
                { *slot = Some(kept); },
        );
    }

    /// Take the item out of the slot of a position.
    fn take(&mut self, position: u16) -> (item: Option<T>)
        requires
            old(self).has_slots(),
        ensures
            item == old(self).at(position, 0),
            final(self).has_slots(),
            final(self).stealer() == old(self).stealer(),
            final(self).head() == old(self).head(),
            final(self).tail == old(self).tail,
            final(self).items@.len() == old(self).items@.len(),
            forall|k: int|
                0 <= k < old(self).items@.len() ==> content((#[trigger] final(self).items@[k])@)
                    == if k == slot_at(position, 0, old(self).items@.len() as int) {
                    None
                } else {
                    content(old(self).items@[k]@)
                },
    {
        proof {
            reveal(LocalQueueInner::has_slots);
            reveal(LocalQueueInner::stealer);
            reveal(LocalQueueInner::head);
            lemma_mask(position, self.mask);
        }
        let i: usize = (position & self.mask) as usize;
        let kept: Option<ManuallyDrop<T>> = self.items[i].with_mut(
            |slot: &mut Option<ManuallyDrop<T>>| -> (kept: Option<ManuallyDrop<T>>)
                ensures
                    kept == *old(slot),
                    *final(slot) is None
                { slot.take() },
        );
        match kept {
            Some(kept) => Some(ManuallyDrop::into_inner(kept)),
            None => None,
        }
    }

    /// How many items can be pushed before the tail reaches the stealer head.
    pub fn room(&self) -> (room: u16)
        requires
            self.wf(),
        ensures
            room == self@.room(),
    {
        let (steal_head, _head) = self.heads();
        proof {
            self.lemma_size();
        }
        self.items.len() as u16 - self.tail.wrapping_sub(steal_head)
    }

    /// How many slots there are.
    pub fn capacity(&self) -> (capacity: u16)
        requires
            self.wf(),
        ensures
            capacity == self@.capacity,
    {
        proof {
            self.lemma_size();
        }
        self.items.len() as u16
    }

    /// Whether a stealer is at work.
    pub fn is_claimed(&self) -> (claimed: bool)
        requires
            self.wf(),
        ensures
            claimed == (self@.claimed.len() > 0),
    {
        let (steal_head, head) = self.heads();
        steal_head != head
    }

    /// Push an item to the back.
    pub fn push(&mut self, item: T)
        requires
            old(self).wf(),
            old(self)@.room() > 0,
        ensures
            final(self).wf(),
            final(self)@ == old(self)@.append(seq![item]),
    {
        let tail: u16 = self.tail;
        self.put(tail, item);
        self.set_tail(tail.wrapping_add(1));
        proof {
            let before = *old(self);
            self.lemma_size();
            lemma_slots_differ(self.stealer(), self.items@.len() as int);
            self.lemma_rebase(self.stealer(), tail, 0);
            assert forall|i: int| 0 <= i < self.n_ready() implies #[trigger] self.at(
                self.head(),
                i,
            ) == Some(before@.append(seq![item]).ready[i]) by {
                self.lemma_rebase(self.stealer(), self.head(), i);
                if i < before.n_ready() {
                    assert(before.at(before.head(), i) is Some);
                }
            }
            assert(self@ =~= before@.append(seq![item]));
        }
    }

    /// Push items to the back, in order.
    pub fn append(&mut self, items: VecDeque<T>)
        requires
            old(self).wf(),
            items@.len() <= old(self)@.room(),
        ensures
            final(self).wf(),
            final(self)@ == old(self)@.append(items@),
    {
        let mut rest: VecDeque<T> = items;
        let ghost mut pushed: Seq<T> = Seq::empty();
        assert(self@ =~= self@.append(pushed));
        loop
            invariant
                self.wf(),
                self@ == old(self)@.append(pushed),
                items@ == pushed + rest@,
                items@.len() <= old(self)@.room(),
            ensures
                rest@.len() == 0,
            decreases rest@.len(),
        {
            match rest.pop_front() {
                Some(item) => {
                    self.push(item);
                    proof {
                        assert(old(self)@.append(pushed).append(seq![item]) =~= old(self)@.append(
                            pushed.push(item),
                        ));
                        pushed = pushed.push(item);
                    }
                },
                None => break,
            }
        }
        assert(pushed =~= items@);
    }

    /// Pop an item from the front. Without a stealer at work both heads move; otherwise only the
    /// real head does, as it is the stealer's job to move the stealer head later.
    pub fn pop(&mut self) -> (item: Option<T>)
        requires
            old(self).wf(),
        ensures
            final(self).wf(),
            old(self)@.ready.len() == 0 ==> item is None && final(self)@ == old(self)@,
            old(self)@.ready.len() > 0 ==> item == Some(old(self)@.ready[0]) && final(self)@ == old(
                self,
            )@.pop(),
    {
        let (steal_head, head) = self.heads();
        if head == self.tail {
            return None;
        }
        let next: u16 = head.wrapping_add(1);
        if steal_head == head {
            self.set_heads(next, next);
        } else {
            self.set_heads(steal_head, next);
        }
        let item: Option<T> = self.take(head);
        proof {
            let before = *old(self);
            self.lemma_size();
            lemma_slots_differ(steal_head, self.items@.len() as int);
            self.lemma_rebase(steal_head, head, 0);
            assert(before.at(before.head(), 0) is Some);
            assert forall|i: int| 0 <= i < self.n_ready() implies #[trigger] self.at(
                self.head(),
                i,
            ) == Some(before@.pop().ready[i]) by {
                assert(before.at(before.head(), i + 1) is Some);
                self.lemma_rebase(head, next, i);
                self.lemma_rebase(steal_head, head, i + 1);
            }
            assert(self@ =~= before@.pop());
        }
        item
    }

    /// Claim items from the front for a stealer: half of the items, rounded up, but no more than
    /// `most`. Returns how many were claimed. Nothing is claimed while another stealer is at work.
    ///
    /// Only the real head moves, so that the claimed items stay where they are until they have
    /// been taken.
    pub fn claim(&mut self, most: u16) -> (count: u16)
        requires
            old(self).wf(),
        ensures
            final(self).wf(),
            count == old(self)@.stealable(most as int),
            count == 0 ==> final(self)@ == old(self)@,
            count > 0 ==> final(self)@ == old(self)@.claim(count as int),
    {
        let (steal_head, head) = self.heads();
        if steal_head != head {
            return 0;
        }
        let stealable: u16 = self.tail.wrapping_sub(head);
        let half: u16 = stealable - stealable / 2;
        let count: u16 = if half < most {
            half
        } else {
            most
        };
        if count == 0 {
            return 0;
        }
        let new_head: u16 = head.wrapping_add(count);
        self.set_heads(head, new_head);
        proof {
            let before = *old(self);
            self.lemma_size();
            assert forall|i: int| 0 <= i < self.n_ready() implies #[trigger] self.at(
                self.head(),
                i,
            ) == Some(before@.claim(count as int).ready[i]) by {
                assert(before.at(before.head(), count + i) is Some);
                self.lemma_rebase(head, new_head, i);
            }
            assert forall|i: int| 0 <= i < self.n_claimed() implies #[trigger] self.at(
                self.stealer(),
                i,
            ) == before@.claim(count as int).claimed[i] by {
                assert(before.at(before.head(), i) is Some);
            }
            assert(self@ =~= before@.claim(count as int));
        }
        count
    }

    /// Take the first `count` items that a stealer has claimed.
    pub fn take_claimed(&mut self, count: u16) -> (items: VecDeque<T>)
        requires
            old(self).wf(),
            old(self)@.holds_claimed(count as int),
        ensures
            final(self).wf(),
            final(self)@ == old(self)@.take_claimed(count as int),
            items@ == old(self)@.claimed_items(count as int),
    {
        let (steal_head, head) = self.heads();
        let mut items: VecDeque<T> = VecDeque::new();
        let mut i: u16 = 0;
        assert(self@.take_claimed(0) =~= self@);
        while i < count
            invariant
                i <= count,
                self.wf(),
                steal_head == self.stealer(),
                old(self)@.holds_claimed(count as int),
                self@ == old(self)@.take_claimed(i as int),
                items@ == old(self)@.claimed_items(i as int),
            decreases count - i,
        {
            let ghost before = *self;
            let position: u16 = steal_head.wrapping_add(i);
            proof {
                self.lemma_size();
                lemma_slots_differ(steal_head, self.items@.len() as int);
                self.lemma_rebase(steal_head, position, 0);
                assert(before@.claimed.len() == old(self)@.claimed.len());
                assert(before.at(steal_head, i as int) == before@.claimed[i as int]);
                assert(old(self)@.claimed[i as int] is Some);
            }
            if let Some(item) = self.take(position) {
                items.push_back(item);
            }
            proof {
                assert forall|k: int| 0 <= k < self.n_ready() implies #[trigger] self.at(
                    self.head(),
                    k,
                ) == Some(before@.ready[k]) by {
                    assert(before.at(before.head(), k) is Some);
                    self.lemma_rebase(steal_head, self.head(), k);
                }
                assert forall|k: int| 0 <= k < self.n_claimed() implies #[trigger] self.at(
                    self.stealer(),
                    k,
                ) == old(self)@.take_claimed(i + 1).claimed[k] by {
                    assert(before.at(steal_head, k) == before@.claimed[k]);
                }
                assert(self@ =~= old(self)@.take_claimed(i + 1));
                assert(items@ =~= old(self)@.claimed_items(i + 1));
            }
            i = i + 1;
        }
        items
    }

    /// Let the stealer head catch up with the real head: the stealer is done.
    pub fn release(&mut self)
        requires
            old(self).wf(),
        ensures
            final(self).wf(),
            final(self)@ == old(self)@.release(),
    {
        let (_steal_head, head) = self.heads();
        self.set_heads(head, head);
        proof {
            let before = *old(self);
            assert forall|i: int| 0 <= i < self.n_ready() implies #[trigger] self.at(
                self.head(),
                i,
            ) == Some(before@.ready[i]) by {
                assert(before.at(before.head(), i) is Some);
            }
            assert(self@ =~= before@.release());
        }
    }

    /// Move the first `count` items to the back of the global queue, in order.
    pub fn spill(&mut self, count: u16, global: &mut GlobalQueue<T>)
        requires
            old(self).wf(),
            old(self)@.claimed.len() == 0,
            count <= old(self)@.ready.len(),
        ensures
            final(self).wf(),
            final(self)@ == old(self)@.skip(count as int),
            final(global)@ == old(global)@ + old(self)@.ready.take(count as int),
    {
        let (_steal_head, head) = self.heads();
        let new_head: u16 = head.wrapping_add(count);
        let ghost before = *self;
        self.set_heads(new_head, new_head);
        proof {
            self.lemma_size();
            assert forall|k: int| 0 <= k < self.n_ready() implies #[trigger] self.at(
                self.head(),
                k,
            ) == Some(before@.skip(count as int).ready[k]) by {
                assert(before.at(before.head(), count + k) is Some);
                self.lemma_rebase(head, new_head, k);
            }
            assert(self@ =~= before@.skip(count as int));
            assert(global@ =~= global@ + before@.ready.take(0));
            assert forall|k: int| 0 <= k < count implies #[trigger] self.at(head, k) == Some(
                before@.ready[k],
            ) by {
                assert(before.at(before.head(), k) is Some);
            }
        }
        let mut i: u16 = 0;
        while i < count
            invariant
                i <= count <= before@.ready.len() <= self.items@.len(),
                self.wf(),
                before.n_claimed() == 0,
                self.head() == new_head,
                self.stealer() == new_head,
                distance(head, new_head) == count,
                self@ == before@.skip(count as int),
                global@ == old(global)@ + before@.ready.take(i as int),
                forall|k: int|
                    i <= k < count ==> #[trigger] self.at(head, k) == Some(before@.ready[k]),
            decreases count - i,
        {
            let ghost now = *self;
            let position: u16 = head.wrapping_add(i);
            proof {
                self.lemma_size();
                lemma_slots_differ(head, self.items@.len() as int);
                self.lemma_rebase(head, position, 0);
                assert(self.at(head, i as int) == Some(before@.ready[i as int]));
            }
            if let Some(item) = self.take(position) {
                global.push(item);
            }
            proof {
                assert forall|k: int| 0 <= k < self.n_ready() implies #[trigger] self.at(
                    self.head(),
                    k,
                ) == Some(before@.skip(count as int).ready[k]) by {
                    assert(now@.ready.len() == self.n_ready());
                    assert(now.at(now.head(), k) is Some);
                    assert(now@.ready[k] == now.at(now.head(), k)->0);
                    self.lemma_rebase(head, new_head, k);
                }
                assert(self@ =~= before@.skip(count as int));
                assert forall|k: int| i < k < count implies #[trigger] self.at(head, k) == Some(
                    before@.ready[k],
                ) by {
                    assert(now.at(head, k) == Some(before@.ready[k]));
                }
                assert(before@.ready.take(i + 1) =~= before@.ready.take(i as int).push(
                    before@.ready[i as int],
                ));
                assert(global@ =~= old(global)@ + before@.ready.take(i + 1));
            }
            i = i + 1;
        }
    }

    /// Where the heads and the tail are, and the mask.
    pub fn positions(&self) -> (positions: Positions)
        requires
            self.wf(),
        ensures
            positions.protected_head == self@.protected_head,
            positions.head == self@.head(),
            positions.tail == self@.tail(),
            positions.mask == self@.capacity - 1,
    {
        let (protected_head, head) = self.heads();
        proof {
            self.lemma_size();
        }
        Positions { protected_head, head, tail: self.tail, mask: self.mask }
    }
}

} // verus!
