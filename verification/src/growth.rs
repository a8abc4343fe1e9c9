//! How much capacity a growing container asks for.

use vstd::arithmetic::power2::{lemma2_to64, lemma_pow2_unfold, pow2};
use vstd::prelude::*;

verus! {

/// The smallest capacity worth asking for: small elements are cheap to hold
/// and dear to resize for, so they start with more room.
pub open spec fn spec_min_non_zero_cap(elem_size: nat) -> nat {
    if elem_size == 1 {
        8
    } else if elem_size <= 1024 {
        4
    } else {
        1
    }
}

/// Twice a capacity, or the largest `usize` where that does not fit.
pub open spec fn spec_doubled(capacity: nat) -> nat {
    if 2 * capacity <= usize::MAX {
        2 * capacity
    } else {
        usize::MAX as nat
    }
}

/// The capacity that amortized growth asks for: the largest of twice the
/// present capacity, the capacity required, and the smallest capacity worth
/// asking for.
pub open spec fn spec_amortized_capacity(capacity: nat, required: nat, elem_size: nat) -> nat {
    let doubled = spec_doubled(capacity);
    let wanted = if doubled >= required {
        doubled
    } else {
        required
    };
    if wanted >= spec_min_non_zero_cap(elem_size) {
        wanted
    } else {
        spec_min_non_zero_cap(elem_size)
    }
}

/// Whether `additional` more elements need more room than a buffer of
/// `capacity` elements has left behind its first `len`.
pub open spec fn spec_needs_to_grow(capacity: nat, len: nat, additional: nat) -> bool {
    additional > capacity - len
}

/// Computes [`spec_min_non_zero_cap`].
pub fn min_non_zero_cap(elem_size: usize) -> (cap: usize)
    ensures
        cap == spec_min_non_zero_cap(elem_size as nat),
{
    if elem_size == 1 {
        8
    } else if elem_size <= 1024 {
        4
    } else {
        1
    }
}

/// Computes [`spec_amortized_capacity`].
pub fn amortized_capacity(capacity: usize, required: usize, elem_size: usize) -> (target: usize)
    ensures
        target == spec_amortized_capacity(capacity as nat, required as nat, elem_size as nat),
{
    let doubled: usize = match capacity.checked_mul(2) {
        Some(d) => d,
        None => usize::MAX,
    };
    let wanted: usize = if doubled >= required {
        doubled
    } else {
        required
    };
    let floor: usize = min_non_zero_cap(elem_size);
    if wanted >= floor {
        wanted
    } else {
        floor
    }
}

/// The capacity asked for is never below the capacity required, never below
/// twice the present one unless that is out of range, and never zero.
pub proof fn lemma_amortized_capacity_bounds(capacity: nat, required: nat, elem_size: nat)
    requires
        capacity <= usize::MAX,
        required <= usize::MAX,
    ensures
        spec_amortized_capacity(capacity, required, elem_size) >= required,
        spec_amortized_capacity(capacity, required, elem_size) >= spec_doubled(capacity),
        spec_amortized_capacity(capacity, required, elem_size) >= 1,
        spec_amortized_capacity(capacity, required, elem_size) <= usize::MAX,
{
}

/// The capacities of a vector onto which elements are pushed one at a time:
/// `caps[n]` is the capacity while the vector holds `n` elements. While there
/// is room a push leaves the capacity alone, and a push onto a full buffer
/// grows it to what amortized growth asks for, or more.
pub open spec fn push_capacities(caps: Seq<nat>, elem_size: nat) -> bool {
    forall|n: int|
        0 <= n < caps.len() - 1 ==> {
            &&& n <= #[trigger] caps[n] <= usize::MAX
            &&& if n < caps[n] {
                caps[n + 1] == caps[n]
            } else {
                caps[n + 1] >= spec_amortized_capacity(caps[n], (n + 1) as nat, elem_size)
            }
        }
}

/// How many of the first `pushes` pushes had to grow the buffer.
pub open spec fn growths(caps: Seq<nat>, pushes: nat) -> nat
    decreases pushes,
{
    if pushes == 0 {
        0
    } else {
        growths(caps, (pushes - 1) as nat) + if caps[pushes - 1] == pushes - 1 {
            1nat
        } else {
            0nat
        }
    }
}

/// A push that grows the buffer leaves room for the element pushed: the new
/// capacity exceeds the length that made it grow.
pub proof fn lemma_growth_makes_room(caps: Seq<nat>, elem_size: nat, len: nat)
    requires
        push_capacities(caps, elem_size),
        len + 1 < caps.len(),
        len < usize::MAX,
    ensures
        caps[len as int + 1] > len,
        caps[len as int + 1] >= caps[len as int],
{
    assert(len <= caps[len as int]);
}

/// Every growth at least doubles the capacity: after `k` growths, for `k` at
/// least one, the capacity is at least two to the power `k - 1`, unless it
/// has reached the largest `usize`.
pub proof fn lemma_capacity_after_growths(caps: Seq<nat>, elem_size: nat, pushes: nat)
    requires
        push_capacities(caps, elem_size),
        pushes < caps.len(),
    ensures
        growths(caps, pushes) >= 1 ==> caps[pushes as int] >= pow2(
            (growths(caps, pushes) - 1) as nat,
        ) || caps[pushes as int] >= usize::MAX,
    decreases pushes,
{
    if pushes > 0 {
        let before = (pushes - 1) as nat;
        lemma_capacity_after_growths(caps, elem_size, before);
        assert(before <= caps[before as int]);
        if caps[before as int] == before {
            let grown = growths(caps, before);
            if grown == 0 {
                lemma2_to64();
            } else {
                lemma_pow2_unfold(grown);
            }
        }
    }
}

/// Pushing `pushes` elements grows the buffer a number of times that is
/// logarithmic in `pushes`: where it grew `k` times, for `k` at least two,
/// more than two to the power `k - 2` elements were pushed.
pub proof fn lemma_growths_logarithmic(caps: Seq<nat>, elem_size: nat, pushes: nat)
    requires
        push_capacities(caps, elem_size),
        pushes < caps.len(),
        pushes <= usize::MAX,
    ensures
        growths(caps, pushes) >= 2 ==> pow2((growths(caps, pushes) - 2) as nat) < pushes,
    decreases pushes,
{
    if pushes > 0 {
        let before = (pushes - 1) as nat;
        lemma_growths_logarithmic(caps, elem_size, before);
        if caps[before as int] == before {
            lemma_capacity_after_growths(caps, elem_size, before);
        }
    }
}

} // verus!
