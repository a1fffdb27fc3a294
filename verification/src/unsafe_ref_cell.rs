use vstd::prelude::*;

verus! {

/// A cell that tracks, at run time, how its value is borrowed: a positive
/// flag counts shared borrows, -1 marks an exclusive borrow, 0 none.
pub struct UnsafeRefCell<T> {
    borrow_flag: isize,
    value: T,
}

impl<T> UnsafeRefCell<T> {
    /// The borrow flag.
    pub closed spec fn flag(&self) -> int {
        self.borrow_flag as int
    }

    /// The value held.
    pub closed spec fn inner(&self) -> T {
        self.value
    }

    /// A cell holding `data`, not borrowed.
    pub fn new(data: T) -> (c: Self)
        ensures
            c.flag() == 0,
            c.inner() == data,
    {
        UnsafeRefCell { borrow_flag: 0, value: data }
    }

    /// Whether a shared borrow may be taken now: the cell is not exclusively
    /// borrowed and the count of shared borrows can grow.
    pub open spec fn can_borrow(&self) -> bool {
        0 <= self.flag() < isize::MAX
    }

    /// Takes a shared borrow of the value.
    pub fn borrow(&mut self) -> (r: &T)
        requires
            old(self).can_borrow(),
        ensures
            final(self).flag() == old(self).flag() + 1,
            final(self).inner() == old(self).inner(),
            *r == old(self).inner(),
    {
        let b = self.borrow_flag.wrapping_add(1);
        self.borrow_flag = b;
        &self.value
    }

    /// Releases a shared borrow.
    pub fn release(&mut self)
        requires
            old(self).flag() > 0,
        ensures
            final(self).flag() == old(self).flag() - 1,
            final(self).inner() == old(self).inner(),
    {
        self.borrow_flag = self.borrow_flag - 1;
    }

    /// Takes the exclusive borrow and replaces the value through it.
    pub fn borrow_mut_replace(&mut self, data: T) -> (previous: T)
        requires
            old(self).flag() == 0,
        ensures
            final(self).flag() == -1,
            final(self).inner() == data,
            previous == old(self).inner(),
    {
        self.borrow_flag = -1;
        let mut previous = data;
        core::mem::swap(&mut self.value, &mut previous);
        previous
    }

    /// Releases the exclusive borrow.
    pub fn release_mut(&mut self)
        requires
            old(self).flag() == -1,
        ensures
            final(self).flag() == 0,
            final(self).inner() == old(self).inner(),
    {
        self.borrow_flag = 0;
    }
}

/// Shared borrows taken and released in turn leave the cell as it was, and
/// while any is held no exclusive borrow can be taken.
pub proof fn lemma_borrow_release<T>(c0: UnsafeRefCell<T>, c1: UnsafeRefCell<T>, c2: UnsafeRefCell<T>)
    requires
        c0.can_borrow(),
        c1.flag() == c0.flag() + 1,
        c1.inner() == c0.inner(),
        c2.flag() == c1.flag() - 1,
        c2.inner() == c1.inner(),
    ensures
        c2.flag() == c0.flag(),
        c2.inner() == c0.inner(),
        c1.flag() != 0,
{
}

} // verus!
