//! A work-stealing queue for building schedulers.
//!
//! Each local queue holds a fixed number of items, and there is also an unbounded global queue. In
//! the general case a worker only interacts with its own local queue. If one worker happens to have
//! a lot less work than another, work is spread out by stealing: a local queue that is empty takes
//! half of the items of a sibling, or fills half of itself from the global queue.
//!
//! Additionally, each local queue stores a non-stealable LIFO slot to optimize for message passing
//! patterns, so that if one task creates another, that created task will be polled immediately,
//! instead of only much later when it reaches the front of the local queue.
//!
//! A [`Queue`] is the state that the local queues share, and every operation of a [`LocalQueue`]
//! takes it. Popping is made of indivisible steps ([`LocalQueue::step`]), between which other local
//! queues can go to work on the same state. What holds in every state that is reached in this way
//! stands in [`system`]; that no item is lost or duplicated, in [`items`]; in which order the items
//! come out, in [`laws`]; what becomes of every slot when an item is pushed or popped, in
//! [`promises`], and with every step, in [`steps`].
//!
//! # Examples
//!
//! ```
//! use work_queue::Queue;
//!
//! let mut queue: Queue<u32> = Queue::new(1, 128);
//! let mut local = queue.local_queues().next().unwrap();
//!
//! queue.push(1);
//! local.push(&mut queue, 2);
//!
//! assert_eq!(local.pop(&mut queue), Some(2));
//! assert_eq!(local.pop(&mut queue), Some(1));
//! assert_eq!(local.pop(&mut queue), None);
//! ```
pub mod cell;
pub mod global;
pub mod heads;
pub mod identity;
pub mod items;
pub mod laws;
pub mod model;
pub mod promises;
pub mod queue;
pub mod ring;
pub mod ring_laws;
pub mod rng;
pub mod run;
pub mod steps;
pub mod system;
pub mod uniform;

pub use crate::global::GlobalQueue;
pub use crate::queue::{LocalQueue, LocalQueues, Progress, Queue};
