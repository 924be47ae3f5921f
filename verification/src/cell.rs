//! The cell that holds one slot of a local queue.
use vstd::prelude::*;

verus! {

/// A cell whose content is reached through closures only.
pub struct UnsafeCell<T>(T);

impl<T> View for UnsafeCell<T> {
    type V = T;

    /// The content of the cell.
    closed spec fn view(&self) -> T {
        self.0
    }
}

impl<T> UnsafeCell<T> {
    /// Create a cell.
    pub fn new(data: T) -> (cell: Self)
        ensures
            cell@ == data,
    {
        UnsafeCell(data)
    }

    /// Call `f` on the content of the cell and return what it returns.
    pub fn with<F: FnOnce(&T) -> R, R>(&self, f: F) -> (returned: R)
        requires
            f.requires((&self@,)),
        ensures
            f.ensures((&self@,), returned),
    {
        f(&self.0)
    }

    /// Call `f` on the content of the cell, keep what it leaves there and return what it returns.
    pub fn with_mut<F: FnOnce(&mut T) -> R, R>(&mut self, f: F) -> (returned: R)
        requires
            forall|data: &mut T| *data == old(self)@ ==> f.requires((data,)),
        ensures
            exists|data: &mut T|
                *data == old(self)@ && *final(data) == final(self)@ && #[trigger] f.ensures(
                    (data,),
                    returned,
                ),
    {
        f(&mut self.0)
    }
}

} // verus!
