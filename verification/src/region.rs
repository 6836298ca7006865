//! The backing region: a row of slots of which one run, the gap, is empty while every
//! other slot holds an element.
//!
//! The functions here work on the parts of a region, its slots and the two bounds of
//! its gap, and leave them laid out as they found them. Those that change a region
//! neither allocate nor unwind, so that a buffer is never seen half changed.

use crate::cost::shift_distance;
use vstd::prelude::*;

verus! {

/// Physical slot that holds logical index `i` when the gap sits at logical position
/// `gap_position` and is `gap_width` slots wide: indices before the gap are unchanged,
/// the others skip over the gap.
pub open spec fn physical_slot(i: int, gap_position: int, gap_width: int) -> int {
    if i < gap_position {
        i
    } else {
        i + gap_width
    }
}

/// Whether `slots` is a region whose gap is the run from `gap_start` up to, not
/// including, `gap_end`: the gap has at least one slot and lies within the region, its
/// slots are empty, and every slot outside it holds an element.
pub open spec fn laid_out<T>(slots: Seq<Option<T>>, gap_start: int, gap_end: int) -> bool {
    &&& 0 <= gap_start < gap_end <= slots.len()
    &&& forall|p: int|
        0 <= p < slots.len() ==> ((#[trigger] slots[p]) is None <==> gap_start <= p < gap_end)
}

/// The elements of a region in logical order: those before the gap, then those behind
/// it.
pub open spec fn contents<T>(slots: Seq<Option<T>>, gap_start: int, gap_end: int) -> Seq<T> {
    Seq::new(
        (slots.len() - (gap_end - gap_start)) as nat,
        |i: int| slots[physical_slot(i, gap_start, gap_end - gap_start)]->0,
    )
}

/// Every logical index has a slot of its own, and none of these slots lies in the gap.
pub proof fn lemma_physical_slot_skips_gap(i: int, j: int, gap_position: int, gap_width: int)
    requires
        0 <= i,
        0 <= j,
        0 <= gap_position,
        0 <= gap_width,
    ensures
        !(gap_position <= physical_slot(i, gap_position, gap_width) < gap_position + gap_width),
        0 <= physical_slot(i, gap_position, gap_width) <= i + gap_width,
        i < j ==> physical_slot(i, gap_position, gap_width) < physical_slot(
            j,
            gap_position,
            gap_width,
        ),
{
}

/// In a region that is laid out, each element sits in the physical slot of its
/// logical index.
pub proof fn lemma_contents_by_slot<T>(slots: Seq<Option<T>>, gap_start: int, gap_end: int, i: int)
    requires
        laid_out(slots, gap_start, gap_end),
        0 <= i < contents(slots, gap_start, gap_end).len(),
    ensures
        contents(slots, gap_start, gap_end).len() == slots.len() - (gap_end - gap_start),
        0 <= physical_slot(i, gap_start, gap_end - gap_start) < slots.len(),
        slots[physical_slot(i, gap_start, gap_end - gap_start)] == Some(
            contents(slots, gap_start, gap_end)[i],
        ),
{
}

/// A region of `total` slots, all empty.
pub(crate) fn empty_region<T>(total: usize) -> (slots: Vec<Option<T>>)
    ensures
        slots.len() == total,
        forall|p: int| 0 <= p < total ==> (#[trigger] slots@[p]) is None,
{
    let mut slots: Vec<Option<T>> = Vec::with_capacity(total);
    while slots.len() < total
        invariant
            slots.len() <= total,
            forall|p: int| 0 <= p < slots.len() ==> (#[trigger] slots@[p]) is None,
        decreases total - slots.len(),
    {
        slots.push(None);
    }
    slots
}

/// Exchanges what two slots hold.
pub(crate) fn swap_slots<T>(slots: &mut Vec<Option<T>>, p: usize, q: usize)
    requires
        p < old(slots).len(),
        q < old(slots).len(),
    ensures
        final(slots)@ == old(slots)@.update(p as int, old(slots)@[q as int]).update(
            q as int,
            old(slots)@[p as int],
        ),
    no_unwind
{
    if p != q {
        let mut carried: Option<T> = None;
        core::mem::swap(&mut slots[p], &mut carried);
        core::mem::swap(&mut slots[q], &mut carried);
        core::mem::swap(&mut slots[p], &mut carried);
    }
}

/// Stores `content` in slot `p` and hands back what the slot held.
pub(crate) fn replace_slot<T>(
    slots: &mut Vec<Option<T>>,
    p: usize,
    content: Option<T>,
) -> (previous: Option<T>)
    requires
        p < old(slots).len(),
    ensures
        previous == old(slots)@[p as int],
        final(slots)@ == old(slots)@.update(p as int, content),
    no_unwind
{
    let mut carried = content;
    core::mem::swap(&mut slots[p], &mut carried);
    carried
}

/// Mutable access to the element in slot `p`, if the slot holds one. Whatever is
/// written through it, the slot still holds an element.
pub(crate) fn slot_mut<T>(slots: &mut Vec<Option<T>>, p: usize) -> (element: Option<&mut T>)
    requires
        p < old(slots).len(),
    ensures
        match old(slots)@[p as int] {
            Some(held) => {
                &&& element is Some
                &&& *element->0 == held
                &&& final(slots)@ == old(slots)@.update(p as int, Some(*final(element->0)))
            },
            None => element is None && final(slots)@ == old(slots)@,
        },
    no_unwind
{
    match &mut slots[p] {
        Some(element) => Some(element),
        None => None,
    }
}

/// Moves the gap to logical position `to` and reports how many elements it moved.
///
/// Where `to` lies before the gap, the elements from `to` up to the gap go to the far
/// end of the gap, the last of them first; where it lies behind, the elements behind
/// the gap up to `to` go to its near end, the first of them first. Each of them moves
/// once, no other element moves, and the gap keeps its width.
pub(crate) fn move_gap<T>(
    slots: &mut Vec<Option<T>>,
    gap_start: &mut usize,
    gap_end: &mut usize,
    to: usize,
) -> (moved: usize)
    requires
        laid_out(old(slots)@, *old(gap_start) as int, *old(gap_end) as int),
        to <= old(slots).len() - (*old(gap_end) - *old(gap_start)),
    ensures
        final(slots).len() == old(slots).len(),
        *final(gap_start) == to,
        *final(gap_end) - *final(gap_start) == *old(gap_end) - *old(gap_start),
        laid_out(final(slots)@, *final(gap_start) as int, *final(gap_end) as int),
        contents(final(slots)@, *final(gap_start) as int, *final(gap_end) as int) == contents(
            old(slots)@,
            *old(gap_start) as int,
            *old(gap_end) as int,
        ),
        moved == shift_distance(*old(gap_start) as int, to as int),
    no_unwind
{
    let ghost elements = contents(slots@, *gap_start as int, *gap_end as int);
    let mut moved: usize = 0;
    while to < *gap_start
        invariant
            slots.len() == old(slots).len(),
            *gap_end - *gap_start == *old(gap_end) - *old(gap_start),
            laid_out(slots@, *gap_start as int, *gap_end as int),
            contents(slots@, *gap_start as int, *gap_end as int) == elements,
            *gap_start <= *old(gap_start),
            to < *old(gap_start) ==> to <= *gap_start,
            to >= *old(gap_start) ==> *gap_start == *old(gap_start),
            moved == *old(gap_start) - *gap_start,
        decreases *gap_start,
    {
        // The element just before the gap crosses to its far end.
        swap_slots(slots, *gap_start - 1, *gap_end - 1);
        *gap_start = *gap_start - 1;
        *gap_end = *gap_end - 1;
        moved = moved + 1;
        assert(contents(slots@, *gap_start as int, *gap_end as int) =~= elements);
    }
    while to > *gap_start
        invariant
            slots.len() == old(slots).len(),
            *gap_end - *gap_start == *old(gap_end) - *old(gap_start),
            laid_out(slots@, *gap_start as int, *gap_end as int),
            contents(slots@, *gap_start as int, *gap_end as int) == elements,
            to <= slots.len() - (*gap_end - *gap_start),
            to >= *old(gap_start) ==> *old(gap_start) <= *gap_start <= to && moved == *gap_start
                - *old(gap_start),
            to < *old(gap_start) ==> *gap_start == to && moved == *old(gap_start) - to,
        decreases to - *gap_start,
    {
        // The element just behind the gap crosses to its near end.
        swap_slots(slots, *gap_start, *gap_end);
        *gap_start = *gap_start + 1;
        *gap_end = *gap_end + 1;
        moved = moved + 1;
        assert(contents(slots@, *gap_start as int, *gap_end as int) =~= elements);
    }
    moved
}

/// Writes `value` into the first slot of the gap, which gives that slot up: `value`
/// becomes the element at the logical position the gap had, and the gap starts one
/// slot later.
pub(crate) fn fill_gap<T>(
    slots: &mut Vec<Option<T>>,
    gap_start: &mut usize,
    gap_end: usize,
    value: T,
)
    requires
        laid_out(old(slots)@, *old(gap_start) as int, gap_end as int),
        gap_end - *old(gap_start) >= 2,
    ensures
        final(slots).len() == old(slots).len(),
        *final(gap_start) == *old(gap_start) + 1,
        laid_out(final(slots)@, *final(gap_start) as int, gap_end as int),
        contents(final(slots)@, *final(gap_start) as int, gap_end as int) == contents(
            old(slots)@,
            *old(gap_start) as int,
            gap_end as int,
        ).insert(*old(gap_start) as int, value),
    no_unwind
{
    let _ = replace_slot(slots, *gap_start, Some(value));
    *gap_start = *gap_start + 1;
    assert(contents(slots@, *gap_start as int, gap_end as int) =~= contents(
        old(slots)@,
        *old(gap_start) as int,
        gap_end as int,
    ).insert(*old(gap_start) as int, value));
}

/// Takes the element just before the gap out of its slot, which joins the gap: the gap
/// starts one slot earlier.
pub(crate) fn widen_gap<T>(
    slots: &mut Vec<Option<T>>,
    gap_start: &mut usize,
    gap_end: usize,
) -> (taken: Option<T>)
    requires
        laid_out(old(slots)@, *old(gap_start) as int, gap_end as int),
        *old(gap_start) > 0,
    ensures
        final(slots).len() == old(slots).len(),
        *final(gap_start) == *old(gap_start) - 1,
        laid_out(final(slots)@, *final(gap_start) as int, gap_end as int),
        taken == Some(
            contents(old(slots)@, *old(gap_start) as int, gap_end as int)[*old(gap_start) - 1],
        ),
        contents(final(slots)@, *final(gap_start) as int, gap_end as int) == contents(
            old(slots)@,
            *old(gap_start) as int,
            gap_end as int,
        ).remove(*old(gap_start) - 1),
    no_unwind
{
    *gap_start = *gap_start - 1;
    let taken = replace_slot(slots, *gap_start, None);
    assert(contents(slots@, *gap_start as int, gap_end as int) =~= contents(
        old(slots)@,
        *old(gap_start) as int,
        gap_end as int,
    ).remove(*old(gap_start) - 1));
    taken
}

/// Empties every slot: the whole region becomes gap.
pub(crate) fn empty_out<T>(slots: &mut Vec<Option<T>>, gap_start: &mut usize, gap_end: &mut usize)
    requires
        laid_out(old(slots)@, *old(gap_start) as int, *old(gap_end) as int),
    ensures
        final(slots).len() == old(slots).len(),
        *final(gap_start) == 0,
        *final(gap_end) == final(slots).len(),
        laid_out(final(slots)@, 0, final(slots).len() as int),
    no_unwind
{
    let total = slots.len();
    let mut p: usize = 0;
    while p < total
        invariant
            slots.len() == total,
            *gap_start < *gap_end <= total,
            forall|q: int| 0 <= q < p ==> (#[trigger] slots@[q]) is None,
            forall|q: int| *gap_start <= q < *gap_end ==> (#[trigger] slots@[q]) is None,
        decreases total - p,
    {
        if p == *gap_start {
            // The slots of the gap are empty already.
            p = *gap_end;
        } else {
            let _ = replace_slot(slots, p, None);
            p = p + 1;
        }
    }
    *gap_start = 0;
    *gap_end = total;
}

/// Moves the elements of `slots` into the larger region `fresh`, which is empty, and
/// makes `fresh` the region; the emptied one is handed back in its place.
///
/// The elements before the gap keep their slot numbers; those behind it go to the end
/// of the new region, so that all the added slots join the gap.
pub(crate) fn relocate<T>(
    slots: &mut Vec<Option<T>>,
    fresh: &mut Vec<Option<T>>,
    gap_start: usize,
    gap_end: &mut usize,
)
    requires
        laid_out(old(slots)@, gap_start as int, *old(gap_end) as int),
        old(fresh).len() > old(slots).len(),
        forall|p: int| 0 <= p < old(fresh).len() ==> (#[trigger] old(fresh)@[p]) is None,
    ensures
        final(slots).len() == old(fresh).len(),
        final(fresh).len() == old(slots).len(),
        *final(gap_end) == *old(gap_end) + (old(fresh).len() - old(slots).len()),
        laid_out(final(slots)@, gap_start as int, *final(gap_end) as int),
        contents(final(slots)@, gap_start as int, *final(gap_end) as int) == contents(
            old(slots)@,
            gap_start as int,
            *old(gap_end) as int,
        ),
    no_unwind
{
    let total = slots.len();
    let added = fresh.len() - total;
    let tail = *gap_end;
    let mut p: usize = 0;
    while p < gap_start
        invariant
            p <= gap_start < tail <= total,
            slots.len() == total,
            fresh.len() == total + added,
            forall|q: int| p <= q < total ==> slots@[q] == #[trigger] old(slots)@[q],
            forall|q: int| 0 <= q < p ==> fresh@[q] == #[trigger] old(slots)@[q],
            forall|q: int| p <= q < fresh.len() ==> (#[trigger] fresh@[q]) is None,
        decreases gap_start - p,
    {
        let carried = replace_slot(slots, p, None);
        let _ = replace_slot(fresh, p, carried);
        p = p + 1;
    }
    let mut p: usize = tail;
    while p < total
        invariant
            gap_start < tail <= p <= total,
            slots.len() == total,
            fresh.len() == total + added,
            forall|q: int| p <= q < total ==> slots@[q] == #[trigger] old(slots)@[q],
            forall|q: int| 0 <= q < gap_start ==> fresh@[q] == #[trigger] old(slots)@[q],
            forall|q: int| tail <= q < p ==> fresh@[q + added] == #[trigger] old(slots)@[q],
            forall|q: int| gap_start <= q < tail + added ==> (#[trigger] fresh@[q]) is None,
            forall|q: int| p + added <= q < fresh.len() ==> (#[trigger] fresh@[q]) is None,
        decreases total - p,
    {
        let carried = replace_slot(slots, p, None);
        let _ = replace_slot(fresh, p + added, carried);
        p = p + 1;
    }
    assert forall|q: int| 0 <= q < fresh.len() && !(gap_start <= q < tail + added) implies (
    #[trigger] fresh@[q]) == old(slots)@[if q < gap_start {
        q
    } else {
        q - added
    }] by {
        if q < gap_start {
            assert(fresh@[q] == old(slots)@[q]);
        } else {
            assert(fresh@[(q - added) + added] == old(slots)@[q - added]);
        }
    }
    core::mem::swap(slots, fresh);
    *gap_end = tail + added;
    assert(contents(slots@, gap_start as int, *gap_end as int) =~= contents(
        old(slots)@,
        gap_start as int,
        *old(gap_end) as int,
    ));
}

} // verus!
