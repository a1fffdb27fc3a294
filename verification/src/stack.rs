use vstd::prelude::*;

use crate::memory::{concat_references, Gc, GcManaged};

verus! {

/// A stack of at most `N` values stored in a fixed block of `N` slots.
#[derive(Debug)]
pub struct Stack<T, const N: usize> {
    stack: Vec<T>,
    top: usize,
}

impl<T: Copy + Default, const N: usize> Stack<T, N> {
    /// The values on the stack, bottom first.
    pub closed spec fn contents(&self) -> Seq<T> {
        self.stack@.subrange(0, self.top as int)
    }

    /// All `N` slots, including those above the top.
    pub closed spec fn slots(&self) -> Seq<T> {
        self.stack@
    }

    /// The stack's internal consistency.
    pub closed spec fn wf(&self) -> bool {
        self.stack@.len() == N && self.top <= N
    }

    /// An empty stack whose `N` slots hold the default value.
    pub fn new() -> (s: Self)
        ensures
            s.wf(),
            s.contents() == Seq::<T>::empty(),
    {
        let mut stack: Vec<T> = Vec::new();
        let mut i: usize = 0;
        while i < N
            invariant
                i <= N,
                stack@.len() == i,
            decreases N - i,
        {
            stack.push(T::default());
            i = i + 1;
        }
        let s = Stack { stack, top: 0 };
        assert(s.contents() =~= Seq::<T>::empty());
        s
    }

    /// The number of values on the stack.
    pub fn len(&self) -> (n: usize)
        requires
            self.wf(),
        ensures
            n == self.contents().len(),
    {
        self.top
    }

    /// The value `depth` places below the top.
    pub fn peek(&self, depth: usize) -> (v: &T)
        requires
            self.wf(),
            depth < self.contents().len(),
        ensures
            *v == self.contents()[self.contents().len() - 1 - depth],
    {
        &self.stack[self.top - 1 - depth]
    }

    /// Replaces the value `depth` places below the top.
    pub fn set(&mut self, depth: usize, value: T)
        requires
            old(self).wf(),
            depth < old(self).contents().len(),
        ensures
            final(self).wf(),
            final(self).contents() == old(self).contents().update(
                old(self).contents().len() - 1 - depth,
                value,
            ),
    {
        let i = self.top - 1 - depth;
        self.stack.set(i, value);
        assert(self.contents() =~= old(self).contents().update(old(self).contents().len() - 1 - depth, value));
    }

    /// Pushes a value.
    pub fn push(&mut self, data: T)
        requires
            old(self).wf(),
            old(self).contents().len() < N,
        ensures
            final(self).wf(),
            final(self).contents() == old(self).contents().push(data),
    {
        self.stack.set(self.top, data);
        self.top = self.top + 1;
        assert(self.contents() =~= old(self).contents().push(data));
    }

    /// Pops the top value, if any.
    pub fn pop(&mut self) -> (r: Option<T>)
        requires
            old(self).wf(),
        ensures
            final(self).wf(),
            old(self).contents().len() == 0 ==> r is None && final(self).contents() == old(self).contents(),
            old(self).contents().len() > 0 ==> r == Some(old(self).contents().last())
                && final(self).contents() == old(self).contents().drop_last(),
    {
        if self.top == 0 {
            return None;
        }
        self.top = self.top - 1;
        assert(self.contents() =~= old(self).contents().drop_last());
        Some(self.stack[self.top])
    }

    /// Keeps the bottom `size` values; a larger size keeps them all.
    pub fn truncate(&mut self, size: usize)
        requires
            old(self).wf(),
        ensures
            final(self).wf(),
            final(self).contents() == old(self).contents().take(
                if size <= old(self).contents().len() {
                    size as int
                } else {
                    old(self).contents().len() as int
                },
            ),
            final(self).slots() == old(self).slots(),
    {
        let size = if size > self.top {
            self.top
        } else {
            size
        };
        self.top = size;
        assert(self.contents() =~= old(self).contents().take(size as int));
    }

    /// Empties the stack.
    pub fn clear(&mut self)
        requires
            old(self).wf(),
        ensures
            final(self).wf(),
            final(self).contents() == Seq::<T>::empty(),
            final(self).slots() == old(self).slots(),
    {
        self.top = 0;
        assert(self.contents() =~= Seq::<T>::empty());
    }

    /// The value in slot `index`, counted from the bottom; slots above the
    /// top hold what was last stored there.
    pub fn index(&self, index: usize) -> (v: &T)
        requires
            self.wf(),
            index < N,
        ensures
            *v == self.slots()[index as int],
            index < self.contents().len() ==> *v == self.contents()[index as int],
    {
        &self.stack[index]
    }
}

impl<T: Copy + Default, const N: usize> Default for Stack<T, N> {
    /// An empty stack whose `N` slots hold the default value.
    fn default() -> (s: Self)
        ensures
            s.wf(),
            s.contents() == Seq::<T>::empty(),
    {
        Stack::new()
    }
}

impl<T: Copy + Default + GcManaged, const N: usize> GcManaged for Stack<T, N> {
    closed spec fn references(&self) -> Seq<Gc> {
        let top = if self.top <= self.stack@.len() {
            self.top as int
        } else {
            self.stack@.len() as int
        };
        concat_references(self.stack@.subrange(0, top).map_values(|x: T| x.references()))
    }

    fn trace(&self) -> (r: Vec<Gc>) {
        let mut out: Vec<Gc> = Vec::new();
        let mut i: usize = 0;
        let top = if self.top <= self.stack.len() {
            self.top
        } else {
            self.stack.len()
        };
        while i < top
            invariant
                i <= top,
                top <= self.stack@.len(),
                out@ == concat_references(
                    self.stack@.subrange(0, i as int).map_values(|x: T| x.references()),
                ),
            decreases top - i,
        {
            let mut inner = self.stack[i].trace();
            out.append(&mut inner);
            proof {
                assert(self.stack@.subrange(0, (i + 1) as int).map_values(|x: T| x.references()).drop_last()
                    =~= self.stack@.subrange(0, i as int).map_values(|x: T| x.references()));
            }
            i = i + 1;
        }
        out
    }
}

} // verus!
