use work_queue::cell::UnsafeCell;
use work_queue::heads::{pack_heads, unpack_heads};
use work_queue::GlobalQueue;

#[test]
fn heads_are_packed() {
    assert_eq!(pack_heads(0x1234, 0xABCD), 0x1234_ABCD);
    assert_eq!(unpack_heads(0x1234_ABCD), (0x1234, 0xABCD));
    for stealer in [0u16, 1, 0x7FFF, 0x8000, 0xFFFF] {
        for head in [0u16, 1, 0x7FFF, 0x8000, 0xFFFF] {
            assert_eq!(unpack_heads(pack_heads(stealer, head)), (stealer, head));
        }
    }
}

#[test]
fn cell_hands_out_its_content() {
    let mut cell = UnsafeCell::new(5);
    assert_eq!(cell.with(|x: &i32| *x + 1), 6);
    assert_eq!(
        cell.with_mut(|x: &mut i32| {
            *x += 10;
            *x * 2
        }),
        30
    );
    assert_eq!(cell.with(|x: &i32| *x), 15);
}

#[test]
fn global_queue_is_first_in_first_out() {
    let mut queue = GlobalQueue::new();
    assert_eq!(queue.pop(), None);
    for i in 0..100 {
        queue.push(i);
    }
    for i in 0..100 {
        assert_eq!(queue.pop(), Some(i));
    }
    assert_eq!(queue.pop(), None);
    queue.push(7);
    assert_eq!(queue.pop(), Some(7));
}
