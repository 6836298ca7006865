//! What an edit costs: how many elements gap relocation and growth move.
//!
//! The cost of an edit depends on three numbers only, the length, the capacity and the
//! position of the gap. They form a [`Layout`]; the functions here say how an insertion
//! changes a layout and how many elements it moves on the way.

use crate::capacity::{
    lemma_slots_for_bounds, lemma_slots_for_least, lemma_slots_for_monotonic,
    lemma_slots_for_unique, slots_for,
};
use vstd::arithmetic::power2::is_pow2;
use vstd::prelude::*;

verus! {

/// The numbers that decide what an edit costs.
pub struct Layout {
    /// Number of elements.
    pub len: nat,
    /// Number of elements that fit without growing.
    pub capacity: nat,
    /// Logical position of the gap.
    pub gap: nat,
}

impl Layout {
    /// What holds of the layout of every buffer: the gap lies within the elements, the
    /// elements fit, and with the one slot that always stays free the region has a
    /// power of two of slots.
    pub open spec fn valid(self) -> bool {
        &&& self.gap <= self.len <= self.capacity
        &&& self.capacity >= 1
        &&& is_pow2((self.capacity + 1) as int)
    }
}

/// Number of elements that have to move to take the gap from logical position `from`
/// to logical position `to`: those between the two positions.
pub open spec fn shift_distance(from: int, to: int) -> int {
    if to < from {
        from - to
    } else {
        to - from
    }
}

/// Capacity after room for `additional` more elements has been asked for: unchanged
/// where they fit, else one less than the least power of two of slots that holds the
/// elements, the additional ones and the free slot.
pub open spec fn capacity_after_reserve(len: nat, capacity: nat, additional: nat) -> nat {
    if len + additional <= capacity {
        capacity
    } else {
        (slots_for(len + additional + 1) - 1) as nat
    }
}

/// Number of elements that move when room for `additional` more elements is asked for:
/// none where they fit, else all, into the new region.
pub open spec fn growth_moves(len: nat, capacity: nat, additional: nat) -> nat {
    if len + additional <= capacity {
        0
    } else {
        len
    }
}

/// Number of elements that an insertion at logical index `at` moves: those that growth
/// relocates, if the buffer is full, and those between the gap and `at`.
pub open spec fn insert_moves(layout: Layout, at: nat) -> nat {
    (growth_moves(layout.len, layout.capacity, 1) + shift_distance(
        layout.gap as int,
        at as int,
    )) as nat
}

/// The layout after an insertion at logical index `at`: one element more, grown if the
/// buffer was full, the gap just behind the new element.
pub open spec fn layout_after_insert(layout: Layout, at: nat) -> Layout {
    Layout {
        len: layout.len + 1,
        capacity: capacity_after_reserve(layout.len, layout.capacity, 1),
        gap: at + 1,
    }
}

/// The layout after `n` insertions at the adjacent indices `start`, `start + 1`, ...
pub open spec fn layout_after_run(layout: Layout, start: nat, n: nat) -> Layout
    decreases n,
{
    if n == 0 {
        layout
    } else {
        layout_after_run(layout_after_insert(layout, start), start + 1, (n - 1) as nat)
    }
}

/// Number of elements that `n` insertions at the adjacent indices `start`,
/// `start + 1`, ... move in all.
pub open spec fn run_moves(layout: Layout, start: nat, n: nat) -> nat
    decreases n,
{
    if n == 0 {
        0
    } else {
        insert_moves(layout, start) + run_moves(
            layout_after_insert(layout, start),
            start + 1,
            (n - 1) as nat,
        )
    }
}

/// A run of `n + 1` adjacent insertions is a run of `n` followed by one insertion
/// behind the last.
pub proof fn lemma_run_append(layout: Layout, start: nat, n: nat)
    ensures
        layout_after_run(layout, start, n + 1) == layout_after_insert(
            layout_after_run(layout, start, n),
            start + n,
        ),
        run_moves(layout, start, n + 1) == run_moves(layout, start, n) + insert_moves(
            layout_after_run(layout, start, n),
            start + n,
        ),
    decreases n,
{
    if n > 0 {
        lemma_run_append(layout_after_insert(layout, start), start + 1, (n - 1) as nat);
    } else {
        reveal_with_fuel(layout_after_run, 2);
        reveal_with_fuel(run_moves, 2);
    }
}

/// A full buffer doubles its number of slots when it grows by one element.
pub proof fn lemma_full_buffer_doubles(capacity: nat)
    requires
        is_pow2((capacity + 1) as int),
        capacity >= 1,
    ensures
        capacity_after_reserve(capacity, capacity, 1) == 2 * capacity + 1,
{
    let slots = capacity + 1;
    assert(is_pow2((2 * slots) as int)) by {
        reveal(is_pow2);
        assert((2 * slots) % 2 == 0 && (2 * slots) / 2 == slots);
    }
    assert((2 * slots) / 2 == slots);
    lemma_slots_for_unique(slots + 1, 2 * slots);
}

/// An insertion into a valid layout, at an index within the elements, gives a valid
/// layout.
pub proof fn lemma_insert_keeps_valid(layout: Layout, at: nat)
    requires
        layout.valid(),
        at <= layout.len,
    ensures
        layout_after_insert(layout, at).valid(),
{
    lemma_slots_for_bounds(layout.len + 2);
}

/// The layout after a run of adjacent insertions: `n` elements more, the gap behind
/// the last of them, and the capacity that one request for room for all `n` gives.
pub proof fn lemma_layout_after_run(layout: Layout, start: nat, n: nat)
    requires
        layout.valid(),
        start <= layout.len,
    ensures
        layout_after_run(layout, start, n).valid(),
        layout_after_run(layout, start, n).len == layout.len + n,
        layout_after_run(layout, start, n).capacity == capacity_after_reserve(
            layout.len,
            layout.capacity,
            n,
        ),
        layout_after_run(layout, start, n).gap == if n == 0 {
            layout.gap
        } else {
            start + n
        },
    decreases n,
{
    if n > 0 {
        let next = layout_after_insert(layout, start);
        lemma_insert_keeps_valid(layout, start);
        lemma_layout_after_run(next, start + 1, (n - 1) as nat);
        // What is left to show: asking for room once for the first element and once
        // for the other `n - 1` gives what asking once for all `n` gives.
        let need = layout.len + n + 1;
        if layout.len + n > layout.capacity {
            lemma_slots_for_bounds(layout.len + 2);
            lemma_slots_for_bounds(need);
            if next.len + (n - 1) as nat <= next.capacity {
                // The first insertion already made all the room.
                lemma_slots_for_least(need, next.capacity + 1);
                lemma_slots_for_monotonic(layout.len + 2, need);
            }
        }
    }
}

/// **Clustered insertions are cheap.** `n` insertions at adjacent, increasing indices
/// move the elements between the gap and the first index once, and besides that only
/// what growth relocates, which is at most the elements there were before plus two
/// for each insertion. The total does not grow with the square of `n`.
pub proof fn lemma_run_moves_linear(layout: Layout, start: nat, n: nat)
    requires
        layout.valid(),
        start <= layout.len,
    ensures
        run_moves(layout, start, n) <= shift_distance(layout.gap as int, start as int)
            + layout.len + 2 * n,
        layout.len + n <= layout.capacity ==> run_moves(layout, start, n) == if n == 0 {
            0
        } else {
            shift_distance(layout.gap as int, start as int)
        },
{
    lemma_run_moves_amortized(layout, start, n);
}

/// The bound behind [`lemma_run_moves_linear`], with the credit that pays for growth:
/// twice the length less the capacity, which each insertion raises by two and which a
/// growth spends.
pub proof fn lemma_run_moves_amortized(layout: Layout, start: nat, n: nat)
    requires
        layout.valid(),
        start <= layout.len,
    ensures
        n > 0 ==> run_moves(layout, start, n) <= shift_distance(layout.gap as int, start as int)
            + if 2 * layout.len + 2 * n >= layout.capacity {
            2 * layout.len + 2 * n - layout.capacity
        } else {
            0
        },
        n == 0 ==> run_moves(layout, start, n) == 0,
        layout.len + n <= layout.capacity && n > 0 ==> run_moves(layout, start, n)
            == shift_distance(layout.gap as int, start as int),
    decreases n,
{
    if n > 0 {
        let next = layout_after_insert(layout, start);
        lemma_insert_keeps_valid(layout, start);
        lemma_run_moves_amortized(next, start + 1, (n - 1) as nat);
        if layout.len + 1 > layout.capacity {
            lemma_full_buffer_doubles(layout.capacity);
        }
    }
}

} // verus!
