//! Equality and ordering of buffers, by their logical sequences alone.
//!
//! A shorter buffer comes before a longer one; buffers of one length are ordered by
//! the first index at which their elements differ.

use crate::buffer::GapBuffer;
use core::cmp::Ordering;
use vstd::prelude::*;
use vstd::std_specs::cmp::{
    OrdSpec, PartialEqSpec, PartialEqSpecImpl, PartialOrdSpec, PartialOrdSpecImpl,
};

verus! {

/// Whether `a` and `b` have one length and equal elements at every index.
pub open spec fn seq_eq<A: PartialEq<B>, B>(a: Seq<A>, b: Seq<B>) -> bool {
    &&& a.len() == b.len()
    &&& forall|i: int| 0 <= i < a.len() ==> #[trigger] a[i].eq_spec(&b[i])
}

/// Order of the elements of `a` and `b` from index `from` on: that of the first pair
/// that is not equal, and equal if there is none.
pub open spec fn seq_partial_cmp_from<A: PartialOrd>(a: Seq<A>, b: Seq<A>, from: int) -> Option<
    Ordering,
>
    decreases a.len() - from,
{
    if from < 0 || from >= a.len() || from >= b.len() {
        Some(Ordering::Equal)
    } else {
        match a[from].partial_cmp_spec(&b[from]) {
            Some(Ordering::Equal) => seq_partial_cmp_from(a, b, from + 1),
            other => other,
        }
    }
}

/// Partial order of two sequences: by length first, then by elements.
pub open spec fn seq_partial_cmp<A: PartialOrd>(a: Seq<A>, b: Seq<A>) -> Option<Ordering> {
    if a.len() < b.len() {
        Some(Ordering::Less)
    } else if a.len() > b.len() {
        Some(Ordering::Greater)
    } else {
        seq_partial_cmp_from(a, b, 0)
    }
}

/// Order of the elements of `a` and `b` from index `from` on: that of the first pair
/// that is not equal, and equal if there is none.
pub open spec fn seq_cmp_from<A: Ord>(a: Seq<A>, b: Seq<A>, from: int) -> Ordering
    decreases a.len() - from,
{
    if from < 0 || from >= a.len() || from >= b.len() {
        Ordering::Equal
    } else {
        match a[from].cmp_spec(&b[from]) {
            Ordering::Equal => seq_cmp_from(a, b, from + 1),
            other => other,
        }
    }
}

/// Total order of two sequences: by length first, then by elements.
pub open spec fn seq_cmp<A: Ord>(a: Seq<A>, b: Seq<A>) -> Ordering {
    if a.len() < b.len() {
        Ordering::Less
    } else if a.len() > b.len() {
        Ordering::Greater
    } else {
        seq_cmp_from(a, b, 0)
    }
}

impl<A: PartialEq<B>, B> PartialEqSpecImpl<GapBuffer<B>> for GapBuffer<A> {
    open spec fn obeys_eq_spec() -> bool {
        <A as PartialEqSpec<B>>::obeys_eq_spec()
    }

    open spec fn eq_spec(&self, other: &GapBuffer<B>) -> bool {
        seq_eq(self@, other@)
    }
}

impl<A: PartialEq<B>, B> PartialEq<GapBuffer<B>> for GapBuffer<A> {
    /// Whether the two buffers hold equal elements in the same order.
    fn eq(&self, other: &GapBuffer<B>) -> (equal: bool) {
        if self.len() != other.len() {
            return false;
        }
        let mut i: usize = 0;
        while i < self.len()
            invariant
                self@.len() == other@.len(),
                i <= self@.len(),
                <A as PartialEqSpec<B>>::obeys_eq_spec() ==> forall|j: int|
                    0 <= j < i ==> #[trigger] self@[j].eq_spec(&other@[j]),
            decreases self@.len() - i,
        {
            if !self[i].eq(&other[i]) {
                return false;
            }
            i = i + 1;
        }
        true
    }
}

impl<A: Eq> Eq for GapBuffer<A> {

}

impl<A: PartialOrd> PartialOrdSpecImpl for GapBuffer<A> {
    open spec fn obeys_partial_cmp_spec() -> bool {
        A::obeys_partial_cmp_spec()
    }

    open spec fn partial_cmp_spec(&self, other: &GapBuffer<A>) -> Option<Ordering> {
        seq_partial_cmp(self@, other@)
    }
}

impl<A: PartialOrd> PartialOrd for GapBuffer<A> {
    /// Order of the two buffers: by length first, then by the first elements that differ.
    fn partial_cmp(&self, other: &GapBuffer<A>) -> (order: Option<Ordering>) {
        if self.len() < other.len() {
            return Some(Ordering::Less);
        }
        if self.len() > other.len() {
            return Some(Ordering::Greater);
        }
        let mut i: usize = 0;
        let ghost mut k: int = 0;
        while i < self.len()
            invariant
                self@.len() == other@.len(),
                i <= self@.len(),
                k == i,
                A::obeys_partial_cmp_spec() ==> seq_partial_cmp_from(
                    self@,
                    other@,
                    k,
                ) == seq_partial_cmp(self@, other@),
            decreases self@.len() - i,
        {
            match self[i].partial_cmp(&other[i]) {
                Some(Ordering::Equal) => {},
                order => {
                    return order;
                },
            }
            i = i + 1;
            proof {
                k = k + 1;
            }
        }
        Some(Ordering::Equal)
    }
}

impl<A: Ord> GapBuffer<A> {
    /// Order of the two buffers: by length first, then by the first elements that differ.
    pub fn cmp(&self, other: &GapBuffer<A>) -> (order: Ordering)
        ensures
            A::obeys_cmp_spec() ==> order == seq_cmp(self@, other@),
    {
        if self.len() < other.len() {
            return Ordering::Less;
        }
        if self.len() > other.len() {
            return Ordering::Greater;
        }
        let mut i: usize = 0;
        let ghost mut k: int = 0;
        while i < self.len()
            invariant
                self@.len() == other@.len(),
                i <= self@.len(),
                k == i,
                A::obeys_cmp_spec() ==> seq_cmp_from(self@, other@, k) == seq_cmp(
                    self@,
                    other@,
                ),
            decreases self@.len() - i,
        {
            match self[i].cmp(&other[i]) {
                Ordering::Equal => {},
                order => {
                    return order;
                },
            }
            i = i + 1;
            proof {
                k = k + 1;
            }
        }
        Ordering::Equal
    }
}

} // verus!
