//! A small forward cursor over a vector, with random access, lookahead and
//! a moving index.

use vstd::prelude::*;

verus! {

/// A cursor over owned items: the buffer and the current index.
pub struct Reader<T> {
    pub vector: Vec<T>,
    pub i: usize,
}

impl<T> Reader<T> {
    /// A cursor at the start of the given items.
    pub fn new(values: Vec<T>) -> (r: Reader<T>)
        ensures
            r.vector == values,
            r.i == 0,
    {
        Reader { vector: values, i: 0 }
    }

    /// The item at an absolute index, where there is one.
    pub fn get(&self, i: usize) -> (r: Option<&T>)
        ensures
            match r {
                Some(t) => i < self.vector@.len() && *t == self.vector@[i as int],
                None => i >= self.vector@.len(),
            },
    {
        if i < self.vector.len() {
            Some(&self.vector[i])
        } else {
            None
        }
    }

    /// The item `offset` places ahead of the cursor, where there is one.
    pub fn peek(&self, offset: usize) -> (r: Option<&T>)
        requires
            self.i + offset <= usize::MAX,
        ensures
            match r {
                Some(t) => self.i + offset < self.vector@.len() && *t == self.vector@[self.i
                    + offset],
                None => self.i + offset >= self.vector@.len(),
            },
    {
        self.get(self.i + offset)
    }

    /// Step the cursor forward by one.
    pub fn next(&mut self)
        requires
            old(self).i < usize::MAX,
        ensures
            final(self).vector == old(self).vector,
            final(self).i == old(self).i + 1,
    {
        self.i = self.i + 1;
    }

    /// The run of items from the cursor on that satisfy the test, stopping
    /// before the first that does not: the cursor moves past the run, and
    /// the run comes back as a slice.
    pub fn take_while_inclusive<F: Fn(&T) -> bool>(&mut self, pred: F) -> (r: &[T])
        requires
            old(self).i <= old(self).vector@.len(),
            forall|t: &T| #[trigger] pred.requires((t,)),
        ensures
            final(self).vector == old(self).vector,
            old(self).i <= final(self).i <= final(self).vector@.len(),
            r@ == final(self).vector@.subrange(old(self).i as int, final(self).i as int),
            forall|k: int|
                old(self).i <= k < final(self).i ==> call_ensures(
                    pred,
                    (&final(self).vector@[k],),
                    true,
                ),
            final(self).i < final(self).vector@.len() ==> call_ensures(
                pred,
                (&final(self).vector@[final(self).i as int],),
                false,
            ),
    {
        let starting_i = self.i;
        loop
            invariant
                self.vector == old(self).vector,
                starting_i == old(self).i,
                starting_i <= self.i <= self.vector@.len(),
                forall|t: &T| #[trigger] pred.requires((t,)),
                forall|k: int|
                    starting_i <= k < self.i ==> call_ensures(
                        pred,
                        (&self.vector@[k],),
                        true,
                    ),
            ensures
                self.vector == old(self).vector,
                starting_i <= self.i <= self.vector@.len(),
                forall|k: int|
                    starting_i <= k < self.i ==> call_ensures(
                        pred,
                        (&self.vector@[k],),
                        true,
                    ),
                self.i < self.vector@.len() ==> call_ensures(
                    pred,
                    (&self.vector@[self.i as int],),
                    false,
                ),
            decreases self.vector@.len() - self.i,
        {
            if self.i >= self.vector.len() {
                break ;
            }
            if pred(&self.vector[self.i]) {
                self.i = self.i + 1;
            } else {
                break ;
            }
        }
        vstd::slice::slice_subrange(self.vector.as_slice(), starting_i, self.i)
    }
}

} // verus!
