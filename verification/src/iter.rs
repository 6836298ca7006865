//! Reading a buffer in logical order, from either end, without moving the gap.
//!
//! [`Items`] is an iterator of the standard library and of `vstd`: it can be read by
//! `next` and `next_back`, and by a `for` loop whose invariant speaks of what the loop
//! has seen so far.

use crate::buffer::GapBuffer;
use vstd::prelude::*;
use vstd::std_specs::iter::{DoubleEndedIteratorSpecImpl, IteratorSpecImpl};

verus! {

/// An iterator over a run of consecutive elements of a buffer. It can be consumed from
/// the front and from the back; each element of the run is yielded once.
pub struct Items<'a, T> {
    buff: &'a GapBuffer<T>,
    /// Logical index of the next element from the front.
    idx: usize,
    /// One past the logical index of the next element from the back.
    end: usize,
}

impl<'a, T> Items<'a, T> {
    #[verifier::type_invariant]
    spec fn inv(&self) -> bool {
        self.idx <= self.end <= self.buff@.len()
    }

    /// The logical sequence of the buffer that is being read.
    pub closed spec fn source(&self) -> Seq<T> {
        self.buff@
    }

    /// The elements not yet yielded, in logical order.
    pub closed spec fn rest(&self) -> Seq<T> {
        self.buff@.subrange(self.idx as int, self.end as int)
    }

    /// Bounds on the number of elements: both are the length of the buffer that is
    /// being read.
    pub fn size_hint(&self) -> (hint: (usize, Option<usize>))
        ensures
            hint.0 == self.source().len(),
            hint.1 == Some(hint.0),
    {
        let len = self.buff.len();
        (len, Some(len))
    }
}

impl<'a, T> IteratorSpecImpl for Items<'a, T> {
    open spec fn obeys_prophetic_iter_laws(&self) -> bool {
        true
    }

    open spec fn remaining(&self) -> Seq<Self::Item> {
        self.rest().as_ref()
    }

    open spec fn will_return_none(&self) -> bool {
        true
    }

    open spec fn decrease(&self) -> Option<nat> {
        Some(self.rest().len())
    }

    open spec fn initial_value_relation(&self, init: &Self) -> bool {
        *init == *self
    }

    open spec fn peek(&self, index: int) -> Option<Self::Item> {
        if 0 <= index < self.rest().len() {
            Some(&self.rest()[index])
        } else {
            None
        }
    }
}

impl<'a, T> Iterator for Items<'a, T> {
    type Item = &'a T;

    /// The next element from the front, if any is left.
    fn next(&mut self) -> (item: Option<&'a T>)
        ensures
            final(self).source() == old(self).source(),
            old(self).rest().len() > 0 ==> {
                &&& item == Some(&old(self).rest().first())
                &&& final(self).rest() == old(self).rest().drop_first()
            },
            old(self).rest().len() == 0 ==> item is None && final(self).rest() == old(self).rest(),
    {
        proof {
            use_type_invariant(&*self);
        }
        if self.idx < self.end {
            let item = self.buff.get(self.idx);
            self.idx = self.idx + 1;
            assert(self.rest() =~= old(self).rest().drop_first());
            assert(self.rest().as_ref() =~= old(self).rest().as_ref().drop_first());
            item
        } else {
            None
        }
    }
}

impl<'a, T> DoubleEndedIteratorSpecImpl for Items<'a, T> {
    open spec fn peek_back(&self, index: int) -> Option<Self::Item> {
        if 0 <= index < self.rest().len() {
            Some(&self.rest()[self.rest().len() - 1 - index])
        } else {
            None
        }
    }
}

impl<'a, T> DoubleEndedIterator for Items<'a, T> {
    /// The next element from the back, if any is left.
    fn next_back(&mut self) -> (item: Option<&'a T>)
        ensures
            final(self).source() == old(self).source(),
            old(self).rest().len() > 0 ==> {
                &&& item == Some(&old(self).rest().last())
                &&& final(self).rest() == old(self).rest().drop_last()
            },
            old(self).rest().len() == 0 ==> item is None && final(self).rest() == old(self).rest(),
    {
        proof {
            use_type_invariant(&*self);
        }
        if self.idx < self.end {
            self.end = self.end - 1;
            assert(self.rest() =~= old(self).rest().drop_last());
            assert(self.rest().as_ref() =~= old(self).rest().as_ref().drop_last());
            self.buff.get(self.end)
        } else {
            None
        }
    }
}

impl<'a, T> Clone for Items<'a, T> {
    /// An iterator over the same buffer with the same elements left to yield.
    fn clone(&self) -> (copy: Self)
        ensures
            copy == *self,
    {
        proof {
            use_type_invariant(self);
        }
        Items { buff: self.buff, idx: self.idx, end: self.end }
    }
}

impl<T> GapBuffer<T> {
    /// The iterator that [`GapBuffer::iter`] returns. This is what `iter` stands for in
    /// the head of a `for` loop; [`GapBuffer::lemma_spec_iter`] says what it yields.
    pub closed spec fn spec_iter(&self) -> Items<'_, T> {
        Items { buff: self, idx: 0, end: self@.len() as usize }
    }

    /// The iterator over a buffer has all the elements of the buffer left to yield.
    pub proof fn lemma_spec_iter(&self)
        ensures
            self.spec_iter().source() == self@,
            self@.len() <= usize::MAX ==> self.spec_iter().rest() == self@,
    {
        if self@.len() <= usize::MAX {
            assert(self.spec_iter().rest() =~= self@);
        }
    }

    /// An iterator over all the elements.
    #[verifier::when_used_as_spec(spec_iter)]
    pub fn iter(&self) -> (items: Items<'_, T>)
        ensures
            items == self.spec_iter(),
            items.source() == self@,
            items.rest() == self@,
    {
        let items = Items { buff: self, idx: 0, end: self.len() };
        assert(items.rest() =~= self@);
        items
    }

    /// An iterator over the elements at logical indices `start` up to, not including,
    /// `end`.
    pub fn slice(&self, start: usize, end: usize) -> (items: Items<'_, T>)
        requires
            start <= end <= self@.len(),
        ensures
            items.source() == self@,
            items.rest() == self@.subrange(start as int, end as int),
    {
        Items { buff: self, idx: start, end }
    }

    /// An iterator over the elements from logical index `start` on.
    pub fn slice_from(&self, start: usize) -> (items: Items<'_, T>)
        requires
            start <= self@.len(),
        ensures
            items.source() == self@,
            items.rest() == self@.subrange(start as int, self@.len() as int),
    {
        self.slice(start, self.len())
    }

    /// An iterator over the first `end` elements.
    pub fn slice_to(&self, end: usize) -> (items: Items<'_, T>)
        requires
            end <= self@.len(),
        ensures
            items.source() == self@,
            items.rest() == self@.subrange(0, end as int),
    {
        self.slice(0, end)
    }
}

} // verus!
