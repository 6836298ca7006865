//! `Default` and `Clone` for buffers.

use crate::buffer::GapBuffer;
use crate::capacity::{
    lemma_slots_for_bounds, lemma_slots_for_fits, lemma_slots_for_least, slots_for,
    DEFAULT_CAPACITY, MAX_SLOTS,
};
use vstd::prelude::*;

verus! {

impl<T> Default for GapBuffer<T> {
    /// An empty buffer with the default capacity.
    fn default() -> (buffer: Self)
        ensures
            buffer@ == Seq::<T>::empty(),
            buffer.spec_capacity() == DEFAULT_CAPACITY,
            buffer.spec_gap_position() == 0,
            buffer.spec_moved() == 0,
    {
        GapBuffer::new()
    }
}

impl<T: Clone> Clone for GapBuffer<T> {
    /// A buffer with storage of its own that holds a clone of every element, in the
    /// same order. The copy has the least capacity that holds them; its gap sits at
    /// the end.
    fn clone(&self) -> (copy: Self)
        ensures
            copy@.len() == self@.len(),
            forall|i: int| 0 <= i < self@.len() ==> cloned::<T>(self@[i], #[trigger] copy@[i]),
            copy.spec_capacity() == slots_for((self@.len() + 1) as nat) - 1,
            copy.spec_gap_position() == self@.len(),
            copy.spec_moved() == 0,
    {
        let len = self.len();
        let room = self.capacity();
        proof {
            lemma_slots_for_least((len + 1) as nat, (room + 1) as nat);
            lemma_slots_for_fits((len + 1) as nat);
        }
        let mut copy: GapBuffer<T> = GapBuffer::with_capacity(len);
        let mut i: usize = 0;
        while i < len
            invariant
                len == self@.len(),
                i <= len,
                copy@.len() == i,
                forall|j: int| 0 <= j < i ==> cloned::<T>(self@[j], #[trigger] copy@[j]),
                copy.spec_capacity() == slots_for((len + 1) as nat) - 1,
                copy.spec_gap_position() == i,
                copy.spec_moved() == 0,
                len < MAX_SLOTS,
            decreases len - i,
        {
            proof {
                lemma_slots_for_bounds((len + 1) as nat);
            }
            let element = self[i].clone();
            copy.insert(i, element);
            i = i + 1;
        }
        copy
    }
}

} // verus!
