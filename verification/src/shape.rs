//! Sizes and layout arithmetic for the packed node array.
//!
//! A tree over `n` leaves stores all internal levels in the first
//! `next_pow2_spec(n)` slots of one flat array. The lemmas here show that the
//! levels produced bottom-up always fit in that prefix.

use vstd::prelude::*;

verus! {

/// The smallest power of two that is at least `n` (and at least 1).
pub open spec fn next_pow2_spec(n: nat) -> nat
    decreases n,
{
    if n <= 1 {
        1
    } else {
        2 * next_pow2_spec(((n + 1) / 2) as nat)
    }
}

pub proof fn lemma_next_pow2_ge(n: nat)
    ensures
        next_pow2_spec(n) >= n,
        next_pow2_spec(n) >= 1,
    decreases n,
{
    if n > 1 {
        lemma_next_pow2_ge(((n + 1) / 2) as nat);
    }
}

pub proof fn lemma_next_pow2_monotonic(a: nat, b: nat)
    requires
        a <= b,
    ensures
        next_pow2_spec(a) <= next_pow2_spec(b),
    decreases b,
{
    if a <= 1 {
        lemma_next_pow2_ge(b);
    } else {
        lemma_next_pow2_monotonic(((a + 1) / 2) as nat, ((b + 1) / 2) as nat);
    }
}

pub proof fn lemma_next_pow2_idempotent(n: nat)
    ensures
        next_pow2_spec(next_pow2_spec(n)) == next_pow2_spec(n),
    decreases n,
{
    if n > 1 {
        let c = ((n + 1) / 2) as nat;
        let p = next_pow2_spec(c);
        lemma_next_pow2_ge(c);
        lemma_next_pow2_idempotent(c);
        assert(((2 * p + 1) / 2) as nat == p);
        assert(next_pow2_spec((2 * p) as nat) == 2 * next_pow2_spec(p));
    }
}

pub proof fn lemma_next_pow2_bound(n: nat)
    requires
        n >= 2,
    ensures
        next_pow2_spec(n) <= 2 * (n - 1),
    decreases n,
{
    let c = ((n + 1) / 2) as nat;
    assert(next_pow2_spec(n) == 2 * next_pow2_spec(c));
    if c >= 2 {
        lemma_next_pow2_bound(c);
        assert(2 * c <= n + 1);
    } else {
        assert(next_pow2_spec(c) == 1);
    }
}

/// Returns the smallest power of two that is at least `n`.
pub fn next_power_of_2(n: usize) -> (r: usize)
    requires
        1 <= n,
        n <= usize::MAX / 2 + 1,
    ensures
        r == next_pow2_spec(n as nat),
    decreases n,
{
    if n <= 1 {
        1
    } else {
        let half = (n + 1) / 2;
        let below = next_power_of_2(half);
        proof {
            if half >= 2 {
                lemma_next_pow2_bound(half as nat);
            }
        }
        2 * below
    }
}

/// How many digests one combining pass emits over a level of `m` digests,
/// before padding: each pair gives one parent, a last unmatched digest gives
/// one parent of its own.
pub open spec fn combined_len(m: nat) -> nat {
    ((m + 1) / 2) as nat
}

/// The resize padding rule on a freshly combined level of `c` digests: a level
/// that has more than one digest and an odd count gets its last digest
/// duplicated.
pub open spec fn padded_len(c: nat) -> nat {
    if c > 1 && c % 2 == 1 {
        (c + 1) as nat
    } else {
        c
    }
}

/// The length of the level built on top of a level of `m` digests.
pub open spec fn upper_len(m: nat) -> nat {
    padded_len(combined_len(m))
}

pub proof fn lemma_upper_len_decreases(m: nat)
    requires
        m >= 2,
    ensures
        1 <= upper_len(m) < m,
{
}

/// The total number of digests in all levels strictly above a level of `m`
/// digests, up to and including the first level of length one.
pub open spec fn levels_sum(m: nat) -> nat
    decreases m,
{
    if m <= 1 {
        0
    } else {
        upper_len(m) + levels_sum(upper_len(m))
    }
}

/// All levels above a level of `n` digests fit together in strictly fewer
/// slots than the next power of two: the packed array's internal prefix is
/// large enough.
pub proof fn lemma_levels_sum_bound(n: nat)
    requires
        n >= 2,
    ensures
        levels_sum(n) < next_pow2_spec(n),
    decreases n,
{
    let c = combined_len(n);
    let u = upper_len(n);
    let p = next_pow2_spec(c);
    lemma_next_pow2_ge(c);
    if c > 1 && c % 2 == 1 {
        assert(p == 2 * next_pow2_spec(((c + 1) / 2) as nat));
        assert(u == c + 1);
        assert(u <= p);
    } else {
        assert(u == c);
        assert(u <= p);
    }
    assert(next_pow2_spec(n) == 2 * p);
    assert(levels_sum(n) == u + levels_sum(u));
    if u >= 2 {
        lemma_upper_len_decreases(n);
        lemma_levels_sum_bound(u);
        assert(levels_sum(u) < next_pow2_spec(u));
        lemma_next_pow2_monotonic(u, p);
        lemma_next_pow2_idempotent(c);
        assert(next_pow2_spec(p) == p);
    } else {
        assert(u == 1);
        assert(levels_sum(u) == 0);
        assert(p >= 1);
    }
}

} // verus!
