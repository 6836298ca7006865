//! The gap buffer: one backing region laid out as live elements, gap, live elements.

use crate::capacity::{
    lemma_slots_for_bounds, lemma_slots_for_fits, round_up_slots, slots_for, DEFAULT_CAPACITY,
    MAX_SLOTS, MIN_SLOTS,
};
use crate::cost::{
    capacity_after_reserve, growth_moves, insert_moves, layout_after_insert, layout_after_run,
    lemma_layout_after_run, lemma_run_append, run_moves, shift_distance, Layout,
};
use crate::region::{
    contents, empty_out, empty_region, fill_gap, laid_out, move_gap, physical_slot, relocate,
    replace_slot, slot_mut, swap_slots, widen_gap,
};
use vstd::arithmetic::power2::is_pow2;
use vstd::prelude::*;
use vstd::std_specs::iter::IteratorSpec;

verus! {

/// A growable sequence with one movable gap of free slots.
///
/// The view of a buffer is its logical sequence; where the gap sits and how large the
/// backing region is never shows in it.
pub struct GapBuffer<T> {
    /// Backing region. Slots before `gap_start` and from `gap_end` on hold the elements.
    slots: Vec<Option<T>>,
    /// First slot of the gap; also the logical position of the gap.
    gap_start: usize,
    /// First slot after the gap.
    gap_end: usize,
    /// Number of elements that gap relocation and growth have moved so far.
    moved: Ghost<nat>,
}

impl<T> View for GapBuffer<T> {
    type V = Seq<T>;

    /// The logical sequence: the elements before the gap followed by those after it.
    closed spec fn view(&self) -> Seq<T> {
        contents(self.slots@, self.gap_start as int, self.gap_end as int)
    }
}

impl<T> GapBuffer<T> {
    #[verifier::type_invariant]
    spec fn inv(&self) -> bool {
        &&& is_pow2(self.slots.len() as int)
        &&& self.slots.len() >= MIN_SLOTS
        &&& laid_out(self.slots@, self.gap_start as int, self.gap_end as int)
    }

    /// Number of elements the buffer can hold without growing: every slot but one.
    pub closed spec fn spec_capacity(&self) -> nat {
        (self.slots.len() - 1) as nat
    }

    /// Logical index at which the gap sits: an insertion there moves no element.
    pub closed spec fn spec_gap_position(&self) -> nat {
        self.gap_start as nat
    }

    /// Number of elements that gap relocation and growth have moved since the buffer
    /// was made. Writing a new element into the gap, or taking one out next to it, is
    /// no move.
    pub closed spec fn spec_moved(&self) -> nat {
        self.moved@
    }

    /// Length, capacity and gap position together.
    pub open spec fn layout(&self) -> Layout {
        Layout { len: self@.len(), capacity: self.spec_capacity(), gap: self.spec_gap_position() }
    }

    /// Constructs an empty buffer with the default capacity.
    pub fn new() -> (buffer: Self)
        ensures
            buffer@ == Seq::<T>::empty(),
            buffer.spec_capacity() == DEFAULT_CAPACITY,
            buffer.spec_gap_position() == 0,
            buffer.spec_moved() == 0,
    {
        proof {
            reveal_with_fuel(slots_for, 3);
            lemma_slots_for_fits((DEFAULT_CAPACITY + 1) as nat);
        }
        Self::with_capacity(DEFAULT_CAPACITY)
    }

    /// Constructs an empty buffer with room for at least `n` elements: its region has
    /// the least power of two of slots that holds `n` elements and the slot that always
    /// stays free.
    pub fn with_capacity(n: usize) -> (buffer: Self)
        requires
            n < MAX_SLOTS,
        ensures
            buffer@ == Seq::<T>::empty(),
            buffer.spec_capacity() == slots_for((n + 1) as nat) - 1,
            buffer.spec_capacity() >= n,
            buffer.spec_gap_position() == 0,
            buffer.spec_moved() == 0,
    {
        proof {
            lemma_slots_for_bounds((n + 1) as nat);
        }
        let total = round_up_slots(n + 1);
        let slots = empty_region(total);
        let buffer = GapBuffer { slots, gap_start: 0, gap_end: total, moved: Ghost(0) };
        assert(buffer@ =~= Seq::<T>::empty());
        buffer
    }

    /// Number of elements in the buffer. It never exceeds the capacity.
    pub fn len(&self) -> (n: usize)
        ensures
            n == self@.len(),
            n <= self.spec_capacity(),
            self.layout().valid(),
    {
        proof {
            use_type_invariant(self);
        }
        self.slots.len() - (self.gap_end - self.gap_start)
    }

    /// Whether the buffer holds no element.
    pub fn is_empty(&self) -> (empty: bool)
        ensures
            empty <==> self@.len() == 0,
    {
        self.len() == 0
    }

    /// Number of elements the buffer can hold without growing: one less than its number
    /// of slots, which is a power of two.
    pub fn capacity(&self) -> (c: usize)
        ensures
            c == self.spec_capacity(),
            c >= self@.len(),
            1 <= c < usize::MAX,
            is_pow2(c + 1),
            self.layout().valid(),
    {
        proof {
            use_type_invariant(self);
        }
        self.slots.len() - 1
    }

    /// Logical index at which the gap sits.
    pub fn gap_position(&self) -> (position: usize)
        ensures
            position == self.spec_gap_position(),
            position <= self@.len(),
            self.layout().valid(),
    {
        proof {
            use_type_invariant(self);
        }
        self.gap_start
    }

    /// Maps a logical index to the physical slot that holds it, if there is such
    /// an element.
    fn get_idx(&self, i: usize) -> (slot: Option<usize>)
        ensures
            i >= self@.len() ==> slot is None,
            i < self@.len() ==> slot is Some && slot->0 == physical_slot(
                i as int,
                self.spec_gap_position() as int,
                self.spec_capacity() + 1 - self@.len(),
            ) && slot->0 < self.slots.len() && self.slots@[slot->0 as int] == Some(
                self@[i as int],
            ),
    {
        proof {
            use_type_invariant(self);
        }
        if i < self.gap_start {
            Some(i)
        } else if i < self.len() {
            Some(i + (self.gap_end - self.gap_start))
        } else {
            None
        }
    }

    /// The element at logical index `i`, if there is one.
    pub fn get(&self, i: usize) -> (element: Option<&T>)
        ensures
            i < self@.len() ==> element == Some(&self@[i as int]),
            i >= self@.len() ==> element is None,
    {
        match self.get_idx(i) {
            Some(p) => self.slots[p].as_ref(),
            None => None,
        }
    }

    /// Mutable access to the element at logical index `i`, if there is one. Whatever is
    /// written through it becomes the element at `i`; nothing else changes.
    pub fn get_mut(&mut self, i: usize) -> (element: Option<&mut T>)
        ensures
            i >= old(self)@.len() ==> element is None && final(self)@ == old(self)@,
            i < old(self)@.len() ==> element is Some && *element->0 == old(self)@[i as int]
                && final(self)@ == old(self)@.update(i as int, *final(element->0)),
            final(self).layout() == old(self).layout(),
            final(self).spec_moved() == old(self).spec_moved(),
    {
        proof {
            use_type_invariant(&*self);
        }
        match self.get_idx(i) {
            Some(p) => slot_mut(&mut self.slots, p),
            None => None,
        }
    }

    /// Mutable access to the element at logical index `i`, which must be in range.
    pub fn index_mut(&mut self, i: usize) -> (element: &mut T)
        requires
            i < old(self)@.len(),
        ensures
            *element == old(self)@[i as int],
            final(self)@ == old(self)@.update(i as int, *final(element)),
            final(self).layout() == old(self).layout(),
            final(self).spec_moved() == old(self).spec_moved(),
    {
        self.get_mut(i).expect("index out of bounds")
    }

    /// Exchanges the elements at logical indices `i` and `j`, which may be equal.
    pub fn swap(&mut self, i: usize, j: usize)
        requires
            i < old(self)@.len(),
            j < old(self)@.len(),
        ensures
            final(self)@ == old(self)@.update(i as int, old(self)@[j as int]).update(
                j as int,
                old(self)@[i as int],
            ),
            final(self).layout() == old(self).layout(),
            final(self).spec_moved() == old(self).spec_moved(),
    {
        proof {
            use_type_invariant(&*self);
        }
        let p = self.get_idx(i).expect("index out of bounds");
        let q = self.get_idx(j).expect("index out of bounds");
        swap_slots(&mut self.slots, p, q);
        assert(self@ =~= old(self)@.update(i as int, old(self)@[j as int]).update(
            j as int,
            old(self)@[i as int],
        ));
    }

    /// Moves the gap to logical position `i` and reports how many elements it moved.
    ///
    /// Each element between the old and the new position of the gap crosses the gap
    /// once; no other element is touched.
    pub fn shift(&mut self, i: usize) -> (moved: usize)
        requires
            i <= old(self)@.len(),
        ensures
            final(self)@ == old(self)@,
            final(self).spec_gap_position() == i,
            final(self).spec_capacity() == old(self).spec_capacity(),
            moved == shift_distance(old(self).spec_gap_position() as int, i as int),
            final(self).spec_moved() == old(self).spec_moved() + moved,
    {
        proof {
            use_type_invariant(&*self);
        }
        let moved = move_gap(&mut self.slots, &mut self.gap_start, &mut self.gap_end, i);
        self.moved = Ghost(self.moved@ + moved as nat);
        moved
    }

    /// Replaces the backing region by one of `total` slots. The elements before the gap
    /// keep their slot numbers; those after it go to the end of the new region, so that
    /// all the added room joins the gap.
    fn grow(&mut self, total: usize)
        requires
            total > old(self).slots.len(),
            is_pow2(total as int),
        ensures
            final(self)@ == old(self)@,
            final(self).spec_gap_position() == old(self).spec_gap_position(),
            final(self).spec_capacity() == total - 1,
            final(self).spec_moved() == old(self).spec_moved() + old(self)@.len(),
    {
        proof {
            use_type_invariant(&*self);
        }
        let mut fresh: Vec<Option<T>> = empty_region(total);
        relocate(&mut self.slots, &mut fresh, self.gap_start, &mut self.gap_end);
        self.moved = Ghost(self.moved@ + self@.len());
    }

    /// Makes room for at least `additional` more elements.
    ///
    /// The region grows only if the room is not there yet, and then to the least power
    /// of two of slots that holds the elements, the additional ones and the one slot
    /// that always stays free. Growth relocates every element; the gap keeps its
    /// logical position and takes up all the added room.
    pub fn reserve(&mut self, additional: usize)
        requires
            old(self)@.len() + additional < MAX_SLOTS,
        ensures
            final(self)@ == old(self)@,
            final(self).spec_gap_position() == old(self).spec_gap_position(),
            final(self).spec_capacity() == capacity_after_reserve(
                old(self)@.len(),
                old(self).spec_capacity(),
                additional as nat,
            ),
            final(self)@.len() + additional <= final(self).spec_capacity(),
            final(self).spec_moved() == old(self).spec_moved() + growth_moves(
                old(self)@.len(),
                old(self).spec_capacity(),
                additional as nat,
            ),
    {
        proof {
            use_type_invariant(&*self);
            lemma_slots_for_bounds((self@.len() + additional + 1) as nat);
        }
        let len = self.len();
        if additional > self.slots.len() - 1 - len {
            let total = round_up_slots(len + additional + 1);
            self.grow(total);
        }
    }

    /// Writes `value` into the first slot of the gap, which thereby shrinks by one slot
    /// from the front: `value` becomes the element at the old position of the gap.
    fn fill(&mut self, value: T)
        requires
            old(self)@.len() < old(self).spec_capacity(),
        ensures
            final(self)@ == old(self)@.insert(old(self).spec_gap_position() as int, value),
            final(self).spec_gap_position() == old(self).spec_gap_position() + 1,
            final(self).spec_capacity() == old(self).spec_capacity(),
            final(self).spec_moved() == old(self).spec_moved(),
    {
        proof {
            use_type_invariant(&*self);
        }
        fill_gap(&mut self.slots, &mut self.gap_start, self.gap_end, value);
    }

    /// Inserts `value` at logical index `i`: the elements before `i` stay where they
    /// are, those from `i` on move up by one.
    ///
    /// The buffer grows first if it is full; then the gap moves to `i` and takes the
    /// value into its first slot. The gap ends up just behind the new element, so that
    /// an insertion at `i + 1` moves nothing.
    pub fn insert(&mut self, i: usize, value: T)
        requires
            i <= old(self)@.len(),
            old(self)@.len() + 1 < MAX_SLOTS,
        ensures
            final(self)@ == old(self)@.insert(i as int, value),
            final(self)@.len() == old(self)@.len() + 1,
            final(self)@[i as int] == value,
            forall|j: int| 0 <= j < i ==> final(self)@[j] == old(self)@[j],
            forall|j: int| i <= j < old(self)@.len() ==> final(self)@[j + 1] == old(self)@[j],
            final(self).layout() == layout_after_insert(old(self).layout(), i as nat),
            final(self).spec_moved() == old(self).spec_moved() + insert_moves(
                old(self).layout(),
                i as nat,
            ),
    {
        self.reserve(1);
        let _ = self.shift(i);
        self.fill(value);
    }

    /// Removes and returns the element at logical index `i`, if there is one; the
    /// elements behind it move down by one.
    ///
    /// The gap moves to just behind the element and then takes it in: it ends up
    /// where the element was.
    pub fn remove(&mut self, i: usize) -> (removed: Option<T>)
        ensures
            i < old(self)@.len() ==> {
                &&& removed == Some(old(self)@[i as int])
                &&& final(self)@ == old(self)@.remove(i as int)
                &&& final(self).spec_gap_position() == i
                &&& final(self).spec_moved() == old(self).spec_moved() + shift_distance(
                    old(self).spec_gap_position() as int,
                    i + 1,
                )
            },
            i >= old(self)@.len() ==> {
                &&& removed is None
                &&& final(self)@ == old(self)@
                &&& final(self).spec_gap_position() == old(self).spec_gap_position()
                &&& final(self).spec_moved() == old(self).spec_moved()
            },
            final(self).spec_capacity() == old(self).spec_capacity(),
    {
        if i >= self.len() {
            return None;
        }
        let _ = self.shift(i + 1);
        proof {
            use_type_invariant(&*self);
        }
        widen_gap(&mut self.slots, &mut self.gap_start, self.gap_end)
    }

    /// Removes every element. The backing region is kept, and all of it becomes gap.
    pub fn clear(&mut self)
        ensures
            final(self)@ == Seq::<T>::empty(),
            final(self).spec_capacity() == old(self).spec_capacity(),
            final(self).spec_gap_position() == 0,
            final(self).spec_moved() == old(self).spec_moved(),
    {
        proof {
            use_type_invariant(&*self);
        }
        empty_out(&mut self.slots, &mut self.gap_start, &mut self.gap_end);
        assert(self@ =~= Seq::<T>::empty());
    }

    /// Constructs a buffer that holds the items that `iterator` yields, in order.
    ///
    /// The region has the least number of slots that holds them. They sit at its end:
    /// the gap is in front of them all.
    pub fn from_iter<I: Iterator<Item = T>>(iterator: I) -> (buffer: Self)
        requires
            iterator.obeys_prophetic_iter_laws(),
            iterator.decrease() is Some,
            iterator.remaining().len() < MAX_SLOTS,
        ensures
            buffer@ == iterator.remaining(),
            buffer.spec_gap_position() == 0,
            buffer.spec_capacity() == slots_for(iterator.remaining().len() + 1) - 1,
            buffer.spec_moved() == 0,
    {
        let mut iterator = iterator;
        let ghost items = iterator.remaining();
        let mut collected: Vec<T> = Vec::new();
        loop
            invariant
                iterator.obeys_prophetic_iter_laws(),
                iterator.decrease() is Some,
                collected@.len() <= items.len(),
                iterator.remaining() == items.subrange(
                    collected@.len() as int,
                    items.len() as int,
                ),
                collected@ == items.subrange(0, collected@.len() as int),
            ensures
                collected@ == items,
            decreases iterator.decrease()->0,
        {
            match iterator.next() {
                Some(item) => {
                    collected.push(item);
                    assert(collected@ =~= items.subrange(0, collected@.len() as int));
                },
                None => {
                    assert(items.subrange(0, collected@.len() as int) =~= items);
                    break ;
                },
            }
        }
        let n = collected.len();
        proof {
            lemma_slots_for_bounds((n + 1) as nat);
        }
        let total = round_up_slots(n + 1);
        let mut slots: Vec<Option<T>> = empty_region(total);
        let mut p: usize = total;
        // The items go to the end of the region, the last of them first.
        while collected.len() > 0
            invariant
                slots.len() == total,
                total >= n + 1,
                items.len() == n,
                collected@.len() <= n,
                p == total - n + collected@.len(),
                collected@ == items.subrange(0, collected@.len() as int),
                forall|q: int| 0 <= q < p ==> (#[trigger] slots@[q]) is None,
                forall|q: int|
                    p <= q < total ==> (#[trigger] slots@[q]) == Some(items[q - (total - n)]),
            decreases collected.len(),
        {
            let item = collected.pop();
            assert(collected@ =~= items.subrange(0, collected@.len() as int));
            p = p - 1;
            let _ = replace_slot(&mut slots, p, item);
        }
        let buffer = GapBuffer { slots, gap_start: 0, gap_end: total - n, moved: Ghost(0) };
        assert(buffer@ =~= items);
        buffer
    }

    /// Appends every item that `iterator` yields, in order.
    ///
    /// The gap moves to the end once; after that the items go into the gap one by one,
    /// as insertions at the end would put them there, and nothing moves but for growth.
    pub fn extend<I: Iterator<Item = T>>(&mut self, iterator: I)
        requires
            iterator.obeys_prophetic_iter_laws(),
            iterator.decrease() is Some,
            old(self)@.len() + iterator.remaining().len() < MAX_SLOTS,
        ensures
            final(self)@ == old(self)@ + iterator.remaining(),
            final(self).spec_gap_position() == final(self)@.len(),
            final(self).spec_capacity() == capacity_after_reserve(
                old(self)@.len(),
                old(self).spec_capacity(),
                iterator.remaining().len(),
            ),
            final(self).spec_moved() == old(self).spec_moved() + shift_distance(
                old(self).spec_gap_position() as int,
                old(self)@.len() as int,
            ) + run_moves(
                (Layout { gap: old(self)@.len(), ..old(self).layout() }),
                old(self)@.len(),
                iterator.remaining().len(),
            ),
    {
        let mut iterator = iterator;
        let len = self.len();
        let _ = self.shift(len);
        let ghost at_end = self.layout();
        let ghost moved_at_end = self.spec_moved();
        let ghost items = iterator.remaining();
        let ghost mut taken: nat = 0;
        loop
            invariant
                iterator.obeys_prophetic_iter_laws(),
                iterator.decrease() is Some,
                taken <= items.len(),
                iterator.remaining() == items.subrange(taken as int, items.len() as int),
                self@ == old(self)@ + items.subrange(0, taken as int),
                at_end.valid(),
                at_end.len == old(self)@.len(),
                at_end.gap == at_end.len,
                self.layout() == layout_after_run(at_end, at_end.len, taken),
                self.spec_gap_position() == self@.len(),
                self.spec_moved() == moved_at_end + run_moves(at_end, at_end.len, taken),
                old(self)@.len() + items.len() < MAX_SLOTS,
            ensures
                taken == items.len(),
            decreases iterator.decrease()->0,
        {
            match iterator.next() {
                Some(item) => {
                    proof {
                        lemma_run_append(at_end, at_end.len, taken);
                        lemma_layout_after_run(at_end, at_end.len, taken);
                    }
                    self.reserve(1);
                    self.fill(item);
                    proof {
                        taken = taken + 1;
                        assert(self@ =~= old(self)@ + items.subrange(0, taken as int));
                    }
                },
                None => {
                    break ;
                },
            }
        }
        proof {
            assert(items.subrange(0, taken as int) =~= items);
            lemma_layout_after_run(at_end, at_end.len, taken);
        }
    }
}

impl<T> vstd::std_specs::core::IndexSpecImpl<usize> for GapBuffer<T> {
    open spec fn index_req(&self, index: &usize) -> bool {
        *index < self@.len()
    }
}

impl<T> core::ops::Index<usize> for GapBuffer<T> {
    type Output = T;

    /// The element at logical index `index`, which must be in range.
    fn index(&self, index: usize) -> (element: &T)
        ensures
            *element == self@[index as int],
    {
        self.get(index).expect("index out of bounds")
    }
}

} // verus!
