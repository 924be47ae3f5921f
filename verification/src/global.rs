//! The unbounded queue that all local queues share.
use concurrent_queue::ConcurrentQueue;
use vstd::prelude::*;

verus! {

/// The outside type [`ConcurrentQueue`], a queue that is first in, first out.
#[verifier::external_type_specification]
#[verifier::external_body]
#[verifier::reject_recursive_types(T)]
pub struct ExConcurrentQueue<T>(ConcurrentQueue<T>);

/// The global queue: an unbounded [`ConcurrentQueue`] that is never closed.
///
/// It is made by [`GlobalQueue::new`] and changed by [`GlobalQueue::push`] and [`GlobalQueue::pop`]
/// alone, and these keep its view in step with what the outside queue holds.
#[verifier::reject_recursive_types(T)]
pub struct GlobalQueue<T> {
    queue: ConcurrentQueue<T>,
    /// What `queue` holds.
    items: Ghost<Seq<T>>,
}

impl<T> View for GlobalQueue<T> {
    type V = Seq<T>;

    /// The items in the queue, the first to be popped first.
    closed spec fn view(&self) -> Seq<T> {
        self.items@
    }
}

impl<T> GlobalQueue<T> {
    /// Create a queue without items.
    ///
    /// Trusted: [`ConcurrentQueue::unbounded`] returns a queue that holds nothing.
    #[verifier::external_body]
    pub fn new() -> (queue: Self)
        ensures
            queue@ == Seq::<T>::empty(),
    {
        GlobalQueue { queue: ConcurrentQueue::unbounded(), items: Ghost(Seq::empty()) }
    }

    /// Push an item to the back.
    ///
    /// Trusted: [`ConcurrentQueue::push`] puts the item behind all others. It fails on a queue that
    /// is full or closed only; an unbounded queue is never full, and this one is never closed.
    #[verifier::external_body]
    pub fn push(&mut self, value: T)
        ensures
            final(self)@ == old(self)@.push(value),
    {
        let _ = self.queue.push(value);
    }

    /// Pop the item at the front.
    ///
    /// Trusted: [`ConcurrentQueue::pop`] takes the item that was pushed first of those in the
    /// queue, and fails, changing nothing, if and only if there is none.
    #[verifier::external_body]
    pub fn pop(&mut self) -> (value: Option<T>)
        ensures
            old(self)@.len() == 0 ==> value is None && final(self)@ == old(self)@,
            old(self)@.len() > 0 ==> value == Some(old(self)@[0]) && final(self)@ == old(
                self,
            )@.drop_first(),
    {
        self.queue.pop().ok()
    }
}

} // verus!
