//! Sizing of the backing region: slot counts are powers of two, never below two.

use vstd::arithmetic::power::{lemma_pow_positive, pow};
use vstd::arithmetic::power2::{
    is_pow2, is_pow2_equiv, is_pow2_exists, lemma2_to64, lemma2_to64_rest, pow2,
};
use vstd::prelude::*;

verus! {

/// Fewest slots a backing region ever has: one for an element and the one that always
/// stays free.
pub const MIN_SLOTS: usize = 2;

/// Most slots a backing region can have: the greatest power of two that a `usize` holds.
pub const MAX_SLOTS: usize = usize::MAX / 2 + 1;

/// Usable capacity of a buffer made without a capacity hint.
pub const DEFAULT_CAPACITY: usize = 7;

/// Number of slots of a region that is to have at least `need` slots: the least power
/// of two that is at least `need` and at least [`MIN_SLOTS`].
pub open spec fn slots_for(need: nat) -> nat
    decreases need,
{
    if need <= 2 {
        2
    } else {
        2 * slots_for(((need + 1) / 2) as nat)
    }
}

/// `slots_for(need)` is a power of two, at least two, at least `need`,
/// and less than twice `need` once `need` exceeds two.
pub proof fn lemma_slots_for_bounds(need: nat)
    ensures
        is_pow2(slots_for(need) as int),
        slots_for(need) >= 2,
        slots_for(need) >= need,
        need > 2 ==> slots_for(need) < 2 * need,
    decreases need,
{
    reveal(is_pow2);
    if need <= 2 {
        assert(is_pow2(1));
        assert(is_pow2(2));
    } else {
        let half = ((need + 1) / 2) as nat;
        lemma_slots_for_bounds(half);
        let s = slots_for(half);
        assert(slots_for(need) == 2 * s);
        assert((2 * s) % 2 == 0);
        assert((2 * s) / 2 == s);
        if half <= 2 {
            assert(s == 2);
        }
    }
}

/// Asking for more never yields fewer slots.
pub proof fn lemma_slots_for_monotonic(small: nat, large: nat)
    requires
        small <= large,
    ensures
        slots_for(small) <= slots_for(large),
{
    lemma_slots_for_bounds(large);
    lemma_slots_for_least(small, slots_for(large));
}

/// A power of two below another power of two is at most half of it.
pub proof fn lemma_pow2_doubles(a: nat, b: nat)
    requires
        is_pow2(a as int),
        is_pow2(b as int),
        a < b,
    ensures
        2 * a <= b,
    decreases b,
{
    reveal(is_pow2);
    if a > 1 {
        lemma_pow2_doubles(a / 2, b / 2);
    }
}

/// `slots_for(need)` is the least of its kind: every power of two that is at least two
/// and at least `need` is at least `slots_for(need)`.
pub proof fn lemma_slots_for_least(need: nat, p: nat)
    requires
        is_pow2(p as int),
        p >= 2,
        p >= need,
    ensures
        slots_for(need) <= p,
    decreases need,
{
    reveal(is_pow2);
    if need > 2 {
        lemma_slots_for_least(((need + 1) / 2) as nat, p / 2);
    }
}

/// A power of two that is at least `need` and at least two, and whose half would be
/// too small, is `slots_for(need)`.
pub proof fn lemma_slots_for_unique(need: nat, c: nat)
    requires
        is_pow2(c as int),
        c >= 2,
        c >= need,
        c == 2 || c / 2 < need,
    ensures
        c == slots_for(need),
{
    lemma_slots_for_bounds(need);
    lemma_slots_for_least(need, c);
    let s = slots_for(need);
    if s < c {
        lemma_pow2_doubles(s, c);
    }
}

/// [`MAX_SLOTS`] is a power of two.
pub proof fn lemma_max_slots_is_pow2()
    ensures
        is_pow2(MAX_SLOTS as int),
        2 * MAX_SLOTS == usize::MAX + 1,
{
    lemma2_to64();
    lemma2_to64_rest();
    if usize::MAX == 0xffff_ffff {
        assert(pow2(31) == MAX_SLOTS);
        lemma_pow_positive(2, 31);
        assert(pow(2, 31) == MAX_SLOTS);
    } else {
        assert(pow2(63) == MAX_SLOTS);
        lemma_pow_positive(2, 63);
        assert(pow(2, 63) == MAX_SLOTS);
    }
    assert(is_pow2_exists(MAX_SLOTS as int));
    is_pow2_equiv(MAX_SLOTS as int);
}

/// The slots for `need` can be counted in a `usize` exactly if `need` is at most
/// [`MAX_SLOTS`], and then they are at most [`MAX_SLOTS`] too.
pub proof fn lemma_slots_for_fits(need: nat)
    ensures
        need <= MAX_SLOTS <==> slots_for(need) <= usize::MAX,
        need <= MAX_SLOTS ==> slots_for(need) <= MAX_SLOTS,
{
    lemma_max_slots_is_pow2();
    lemma_slots_for_bounds(need);
    if need <= MAX_SLOTS {
        lemma_slots_for_least(need, MAX_SLOTS as nat);
    } else {
        lemma_pow2_doubles(MAX_SLOTS as nat, slots_for(need));
    }
}

/// Computes `slots_for(need)` by doubling.
pub fn round_up_slots(need: usize) -> (slots: usize)
    requires
        need <= MAX_SLOTS,
    ensures
        slots == slots_for(need as nat),
{
    let mut c: usize = MIN_SLOTS;
    proof {
        reveal(is_pow2);
        assert(is_pow2(1));
        assert(is_pow2(2));
        lemma_slots_for_bounds(need as nat);
        lemma_slots_for_fits(need as nat);
    }
    while c < need
        invariant
            is_pow2(c as int),
            c >= 2,
            c == 2 || c / 2 < need,
            c <= slots_for(need as nat) <= usize::MAX,
            is_pow2(slots_for(need as nat) as int),
            slots_for(need as nat) >= need,
        decreases slots_for(need as nat) - c,
    {
        proof {
            lemma_pow2_doubles(c as nat, slots_for(need as nat));
            reveal(is_pow2);
            assert((2 * c) % 2 == 0 && (2 * c) / 2 == c);
        }
        c = 2 * c;
    }
    proof {
        lemma_slots_for_unique(need as nat, c as nat);
    }
    c
}

} // verus!
