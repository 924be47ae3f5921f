use std::cell::Cell;
use std::collections::HashSet;
use std::rc::Rc;

use work_queue::{LocalQueue, Progress, Queue};

/// Take all local queues of a queue.
fn take_locals<T>(queue: &mut Queue<T>) -> Vec<LocalQueue<T>> {
    let mut yielded = queue.local_queues();
    let mut locals = Vec::new();
    while let Some(local) = yielded.next() {
        locals.push(local);
    }
    locals
}

#[test]
fn lifo_slot() {
    let mut queue = Queue::new(1, 2);
    let mut local = queue.local_queues().next().unwrap();

    assert_eq!(local.pop(&mut queue), None);
    assert_eq!(local.pop(&mut queue), None);

    local.push(&mut queue, Box::new(5));
    assert_eq!(local.pop(&mut queue), Some(Box::new(5)));
    assert_eq!(local.pop(&mut queue), None);
}

#[test]
fn push_many() {
    let mut queue = Queue::new(1, 2);
    let mut local = queue.local_queues().next().unwrap();

    for i in 0..4 {
        local.push(&mut queue, Box::new(i));
    }
    assert_eq!(local.pop(&mut queue), Some(Box::new(3)));
    assert_eq!(local.pop(&mut queue), Some(Box::new(1)));
    assert_eq!(local.pop(&mut queue), Some(Box::new(0)));
    assert_eq!(local.pop(&mut queue), Some(Box::new(2)));
    assert_eq!(local.pop(&mut queue), None);
}

#[test]
fn wrapping() {
    let mut queue = Queue::new(1, 2);
    let mut local = queue.local_queues().next().unwrap();

    local.push(&mut queue, Box::new(0));

    // Clear LIFO slot.
    local.push(&mut queue, Box::new(12345));
    assert_eq!(local.pop(&mut queue), Some(Box::new(12345)));

    for i in 0..10 {
        local.push(&mut queue, Box::new(i + 1));

        // Clear LIFO slot.
        local.push(&mut queue, Box::new(12345));
        assert_eq!(local.pop(&mut queue), Some(Box::new(12345)));

        assert_eq!(local.pop(&mut queue), Some(Box::new(i)));
    }

    assert_eq!(local.pop(&mut queue), Some(Box::new(10)));
    assert_eq!(local.pop(&mut queue), None);
    assert_eq!(local.pop(&mut queue), None);
}

#[test]
fn steal_global() {
    for &size in &[2, 4, 8, 16, 32, 64] {
        let mut queue = Queue::new(4, size);

        for i in 0..16 {
            queue.push(Box::new(i));
        }

        let mut local = queue.local_queues().next().unwrap();

        for i in 0..16 {
            assert_eq!(local.pop(&mut queue), Some(Box::new(i)));
        }

        assert_eq!(local.pop(&mut queue), None);
    }
}

#[test]
fn steal_siblings() {
    let mut queue = Queue::new(2, 64);

    let mut locals: Vec<_> = take_locals(&mut queue);

    locals[0].push(&mut queue, Box::new(4));
    locals[0].push(&mut queue, Box::new(5));
    // LIFO slot
    locals[0].push(&mut queue, Box::new(12345));

    locals[1].push(&mut queue, Box::new(1));
    locals[1].push(&mut queue, Box::new(0));

    queue.push(Box::new(2));
    queue.push(Box::new(3));

    for i in 0..6 {
        assert_eq!(locals[1].pop(&mut queue), Some(Box::new(i)));
    }
}

#[test]
fn many_locals() {
    let mut queue = <Queue<()>>::new(10, 128);
    assert_eq!(take_locals(&mut queue).len(), 10);
}

#[test]
fn searchers() {
    let mut queue = Queue::new(2, 64);
    let mut locals = queue.local_queues();
    let mut local_a = locals.next().unwrap();
    let mut local_b = locals.next().unwrap();

    assert_eq!(local_a.searchers(&queue), 0);
    assert_eq!(local_b.searchers(&queue), 0);

    local_a.push(&mut queue, ());
    local_a.push(&mut queue, ());
    local_a.pop(&mut queue).unwrap();
    local_a.pop(&mut queue).unwrap();
    queue.push(());
    local_b.pop(&mut queue).unwrap();
    assert!(local_b.pop(&mut queue).is_none());

    assert_eq!(local_a.searchers(&queue), 0);
    assert_eq!(local_b.searchers(&queue), 0);

    // Watch another local queue search.
    let mut seen = false;
    loop {
        let progress = local_b.step(&mut queue);
        let searchers = local_a.searchers(&queue);
        assert!(searchers < 2);
        if searchers == 1 {
            seen = true;
        }
        if let Progress::Done(item) = progress {
            assert!(item.is_none());
            break;
        }
    }
    assert!(seen);
    assert_eq!(local_a.searchers(&queue), 0);
}

#[test]
fn stress() {
    let mut queue = Queue::new(4, 4);

    for _ in 0..32 {
        queue.push(6);
    }

    // Let the local queues take turns after every step, until all have run out of items.
    let mut locals = take_locals(&mut queue);
    let mut stopped = [false; 4];
    let mut popped = 0;
    while stopped != [true; 4] {
        for (local, stopped) in locals.iter_mut().zip(stopped.iter_mut()) {
            if *stopped {
                continue;
            }
            match local.step(&mut queue) {
                Progress::Searching => {}
                Progress::Done(Some(num)) => {
                    popped += 1;
                    for _ in 0..num {
                        local.push(&mut queue, num - 1);
                    }
                }
                Progress::Done(None) => *stopped = true,
            }
        }
    }
    // Each item leads to `tree(6)` items in all.
    fn tree(num: u32) -> u32 {
        1 + (0..num).map(|_| tree(num - 1)).sum::<u32>()
    }
    assert_eq!(popped, 32 * tree(6));
    assert_eq!(locals[0].searchers(&queue), 0);
}

#[test]
fn local_queues_are_counted_down() {
    let mut queue: Queue<u8> = Queue::new(3, 1);
    assert!(!queue.local_queues_taken());
    let mut locals = queue.local_queues();
    assert_eq!(locals.len(), 3);
    assert_eq!(locals.size_hint(), (3, Some(3)));
    assert!(locals.next().is_some());
    assert_eq!(locals.len(), 2);
    assert!(locals.next().is_some());
    assert!(locals.next().is_some());
    assert_eq!(locals.size_hint(), (0, Some(0)));
    assert!(locals.next().is_none());
    assert!(locals.next().is_none());
    assert!(queue.local_queues_taken());
}

#[test]
fn no_local_queues() {
    let mut queue: Queue<u8> = Queue::new(0, 8);
    queue.push(1);
    assert!(queue.local_queues().next().is_none());
}

#[test]
fn global_is_the_queue() {
    let mut queue: Queue<u8> = Queue::new(1, 8);
    let mut local = queue.local_queues().next().unwrap();
    local.global(&mut queue).push(5);
    assert_eq!(local.pop(&mut queue), Some(5));
}

#[test]
fn size_one_overflows_item_by_item() {
    let mut queue = Queue::new(1, 1);
    let mut local = queue.local_queues().next().unwrap();
    for i in 0..3 {
        local.push_yield(&mut queue, i);
    }
    for i in 0..3 {
        assert_eq!(local.pop(&mut queue), Some(i));
    }
    assert_eq!(local.pop(&mut queue), None);
}

#[test]
fn overflow_moves_half_to_the_global_queue() {
    let mut queue = Queue::new(2, 4);
    let mut locals = take_locals(&mut queue);
    for i in 0..5 {
        locals[0].push_yield(&mut queue, i);
    }
    // The local queue keeps the second half of the first four items.
    assert_eq!(locals[0].pop(&mut queue), Some(2));
    assert_eq!(locals[0].pop(&mut queue), Some(3));
    // The first half and the item that did not fit went to the global queue.
    assert_eq!(locals[1].pop(&mut queue), Some(0));
    assert_eq!(locals[1].pop(&mut queue), Some(1));
    assert_eq!(locals[1].pop(&mut queue), Some(4));
    assert_eq!(locals[1].pop(&mut queue), None);
    assert_eq!(locals[0].pop(&mut queue), None);
}

#[test]
fn push_yield_skips_the_lifo_slot() {
    let mut queue = Queue::new(1, 4);
    let mut local = queue.local_queues().next().unwrap();
    local.push(&mut queue, 1);
    local.push_yield(&mut queue, 2);
    local.push_yield(&mut queue, 3);
    assert_eq!(local.pop(&mut queue), Some(1));
    assert_eq!(local.pop(&mut queue), Some(2));
    assert_eq!(local.pop(&mut queue), Some(3));
}

#[test]
fn half_is_stolen_and_the_lifo_slot_is_not() {
    let mut queue = Queue::new(2, 8);
    let mut locals = take_locals(&mut queue);
    for i in 0..5 {
        locals[0].push_yield(&mut queue, i);
    }
    locals[0].push(&mut queue, 99);
    assert_eq!(locals[1].pop(&mut queue), Some(0));
    let from = queue.positions(0);
    assert_eq!((from.protected_head, from.head, from.tail, from.mask), (3, 3, 5, 7));
    let to = queue.positions(1);
    assert_eq!((to.protected_head, to.head, to.tail, to.mask), (0, 0, 2, 7));
    assert_eq!(locals[1].pop(&mut queue), Some(1));
    assert_eq!(locals[1].pop(&mut queue), Some(2));
    assert_eq!(locals[1].pop(&mut queue), Some(3));
    assert_eq!(locals[1].pop(&mut queue), Some(4));
    assert_eq!(locals[1].pop(&mut queue), None);
    assert_eq!(locals[0].pop(&mut queue), Some(99));
}

#[test]
fn refill_fills_half() {
    let mut queue = Queue::new(1, 4);
    let mut local = queue.local_queues().next().unwrap();
    for i in 0..6 {
        queue.push(i);
    }
    assert_eq!(local.pop(&mut queue), Some(0));
    assert_eq!(queue.positions(0).tail, 2);
}

#[test]
fn global_queue_is_preferred_after_an_empty_search() {
    let mut queue = Queue::new(2, 4);
    let mut locals = take_locals(&mut queue);
    assert_eq!(locals[0].pop(&mut queue), None);
    locals[1].push_yield(&mut queue, 10);
    queue.push(1);
    assert_eq!(locals[0].pop(&mut queue), Some(1));
    assert_eq!(locals[0].pop(&mut queue), Some(10));
}

/// Step until the local queue has claimed items of the sibling.
fn step_until_claimed(local: &mut LocalQueue<u32>, queue: &mut Queue<u32>, victim: usize) {
    loop {
        let at = queue.positions(victim);
        if at.protected_head != at.head {
            return;
        }
        assert!(matches!(local.step(queue), Progress::Searching));
    }
}

/// Step until the search is over.
fn step_until_done(local: &mut LocalQueue<u32>, queue: &mut Queue<u32>) -> Option<u32> {
    loop {
        if let Progress::Done(item) = local.step(queue) {
            return item;
        }
    }
}

#[test]
fn owner_works_on_while_stolen_from() {
    let mut queue = Queue::new(3, 4);
    let mut locals = take_locals(&mut queue);
    for i in 0..4 {
        locals[0].push_yield(&mut queue, i);
    }
    let mut thief = locals.remove(1);
    step_until_claimed(&mut thief, &mut queue, 0);
    let mut owner = locals.remove(0);
    let mut other = locals.remove(0);

    // No other can steal from the local queue meanwhile.
    assert_eq!(other.pop(&mut queue), None);

    // A push to the full local queue goes to the global queue alone.
    owner.push_yield(&mut queue, 4);
    assert_eq!(queue.positions(0).tail, 4);

    // The owner pops the items that are not claimed.
    assert_eq!(owner.pop(&mut queue), Some(2));
    assert_eq!(owner.pop(&mut queue), Some(3));
    let at = queue.positions(0);
    assert_eq!((at.protected_head, at.head, at.tail), (0, 4, 4));

    // All slots are protected, so nothing is stolen on top of the item from the global queue.
    queue.push(5);
    assert_eq!(owner.pop(&mut queue), Some(4));
    assert_eq!(queue.positions(0).tail, 4);

    // The stealer gets what it claimed.
    assert_eq!(step_until_done(&mut thief, &mut queue), Some(0));
    assert_eq!(thief.pop(&mut queue), Some(1));
    let at = queue.positions(0);
    assert_eq!((at.protected_head, at.head, at.tail), (4, 4, 4));
    assert_eq!(owner.pop(&mut queue), Some(5));
    assert_eq!(owner.pop(&mut queue), None);
}

#[test]
fn positions_wrap_around() {
    let mut queue = Queue::new(1, 2);
    let mut local = queue.local_queues().next().unwrap();
    for i in 0..70000u32 {
        local.push_yield(&mut queue, i);
        assert_eq!(local.pop(&mut queue), Some(i));
    }
    let at = queue.positions(0);
    let expected = (70000u32 % 0x1_0000) as u16;
    assert_eq!((at.protected_head, at.head, at.tail), (expected, expected, expected));
}

#[test]
fn seeded_local_queues_take_turns() {
    // With the same seed the same siblings are looked at first.
    for seed in 0..20 {
        let mut results = Vec::new();
        for _ in 0..2 {
            let mut queue: Queue<u32> = Queue::new(3, 4);
            let mut locals = queue.local_queues();
            let mut a = locals.next_with_seed(seed).unwrap();
            let mut b = locals.next_with_seed(seed).unwrap();
            let mut c = locals.next_with_seed(seed).unwrap();
            assert!(locals.next_with_seed(seed).is_none());
            b.push_yield(&mut queue, 1);
            c.push_yield(&mut queue, 2);
            results.push((a.pop(&mut queue), a.pop(&mut queue)));
        }
        assert_eq!(results[0], results[1]);
        assert!(results[0] == (Some(1), Some(2)) || results[0] == (Some(2), Some(1)));
    }
}

#[test]
fn searches_end_while_others_search() {
    let mut queue: Queue<u32> = Queue::new(3, 4);
    let mut locals = take_locals(&mut queue);
    for i in 0..4 {
        locals[2].push_yield(&mut queue, i);
    }
    // Two of them take turns. A search has at most one step of each kind, apart from those that
    // look at a sibling and those that gather an item.
    let (siblings, gathered) = (3, 2);
    let mut steps = [0; 2];
    let mut found = [None; 2];
    while found.iter().any(Option::is_none) {
        for i in 0..2 {
            if found[i].is_none() {
                steps[i] += 1;
                assert!(steps[i] <= 14 + siblings + gathered);
                if let Progress::Done(item) = locals[i].step(&mut queue) {
                    found[i] = Some(item);
                }
            }
        }
    }
    // Only one of them can have stolen the first item.
    assert_eq!(found.iter().filter(|item| **item == Some(Some(0))).count(), 1);
    assert_eq!(locals[0].searchers(&queue), 0);
}

/// An item that counts how many of its kind have been dropped.
struct Counted(Rc<Cell<u32>>);

impl Drop for Counted {
    fn drop(&mut self) {
        self.0.set(self.0.get() + 1);
    }
}

#[test]
fn items_left_in_local_queues_are_not_dropped() {
    let dropped = Rc::new(Cell::new(0));
    let mut queue = Queue::new(1, 4);
    let mut local = queue.local_queues().next().unwrap();
    for _ in 0..3 {
        local.push_yield(&mut queue, Counted(Rc::clone(&dropped)));
    }
    local.push(&mut queue, Counted(Rc::clone(&dropped)));
    queue.push(Counted(Rc::clone(&dropped)));

    // An item that is popped is dropped by whoever popped it.
    let item = local.pop(&mut queue).unwrap();
    assert_eq!(dropped.get(), 0);
    drop(item);
    assert_eq!(dropped.get(), 1);
    drop(local.pop(&mut queue));
    assert_eq!(dropped.get(), 2);

    // What is in the LIFO slot goes with the local queue, what is in the global queue goes with
    // the queue, and the two items that are still in the local queue stay.
    local.push(&mut queue, Counted(Rc::clone(&dropped)));
    drop(local);
    assert_eq!(dropped.get(), 3);
    drop(queue);
    assert_eq!(dropped.get(), 4);
    assert_eq!(Rc::strong_count(&dropped), 3);
}

#[test]
fn moved_items_are_not_dropped() {
    let dropped = Rc::new(Cell::new(0));
    let mut queue = Queue::new(2, 4);
    let mut locals = take_locals(&mut queue);
    for _ in 0..9 {
        locals[0].push_yield(&mut queue, Counted(Rc::clone(&dropped)));
    }
    // They have overflowed into the global queue, and are now stolen from both.
    let mut items = Vec::new();
    while let Some(item) = locals[1].pop(&mut queue) {
        items.push(item);
    }
    assert_eq!(items.len(), 9);
    assert_eq!(dropped.get(), 0);
    drop(items);
    assert_eq!(dropped.get(), 9);
}

#[test]
fn local_queues_can_be_formatted() {
    let mut queue = Queue::new(1, 4);
    let mut local = queue.local_queues().next_with_seed(1234).unwrap();
    local.push(&mut queue, 5);
    let text = format!("{:?}", local);
    assert!(text.contains("lifo_slot: Some(5)"));
    assert!(text.contains("index: 0"));
    assert!(text.contains("Rng { state: 1234 }"));
    assert!(text.contains("search: Idle"));
    assert_eq!(format!("{:?}", local.step(&mut queue)), "Done(Some(5))");
    assert_eq!(
        format!("{:?}", queue.positions(0)),
        "Positions { protected_head: 0, head: 0, tail: 0, mask: 3 }"
    );
}

#[test]
fn local_queues_have_seeds_of_their_own() {
    let mut queue: Queue<u8> = Queue::new(8, 4);
    let locals = take_locals(&mut queue);
    let seeds: HashSet<String> = locals
        .iter()
        .map(|local| {
            let text = format!("{:?}", local);
            text.split("state: ").nth(1).unwrap().split(' ').next().unwrap().to_string()
        })
        .collect();
    assert_eq!(seeds.len(), 8);
}

#[test]
fn stealing_from_the_global_queue_is_exclusive() {
    let mut queue: Queue<u32> = Queue::new(2, 4);
    let mut locals = take_locals(&mut queue);
    queue.push(1);
    queue.push(2);
    assert!(!queue.is_stealing_global());
    while !queue.is_stealing_global() {
        assert!(matches!(locals[0].step(&mut queue), Progress::Searching));
    }
    assert_eq!(queue.searchers(), 1);
    // The other pops a single item meanwhile.
    assert_eq!(locals[1].pop(&mut queue), Some(1));
    assert_eq!(queue.positions(1).tail, 0);
    assert!(queue.is_stealing_global());
    assert_eq!(step_until_done(&mut locals[0], &mut queue), Some(2));
    assert!(!queue.is_stealing_global());
    assert_eq!(queue.searchers(), 0);
}
