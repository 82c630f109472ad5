//! The buffer's growth policy: capacities are zero or a power of two, and a
//! growth event picks the smallest power of two that holds the bytes needed.

use vstd::prelude::*;

verus! {

/// `n` is a power of two: 1, 2, 4, 8, ...
pub open spec fn is_pow2(n: nat) -> bool
    decreases n,
{
    if n == 0 {
        false
    } else if n == 1 {
        true
    } else {
        n % 2 == 0 && is_pow2(n / 2)
    }
}

/// `c` is the smallest power of two with `c >= n`.
pub open spec fn is_min_pow2_at_least(c: nat, n: nat) -> bool {
    &&& is_pow2(c)
    &&& c >= n
    &&& (c > 1 ==> c / 2 < n)
}

/// A power of two strictly below another power of two is at most its half.
proof fn lemma_pow2_le_half(m: nat, c: nat)
    requires
        is_pow2(m),
        is_pow2(c),
        m < c,
    ensures
        m <= c / 2,
    decreases c,
{
    if m == 1 {
        assert(c >= 2);
    } else {
        lemma_pow2_le_half(m / 2, c / 2);
    }
}

/// Minimality in its usual form: no power of two at least `n` is below `c`.
pub proof fn lemma_min_pow2_at_least_is_min(c: nat, n: nat, m: nat)
    requires
        is_min_pow2_at_least(c, n),
        is_pow2(m),
        m >= n,
    ensures
        c <= m,
{
    if m < c {
        lemma_pow2_le_half(m, c);
    }
}

/// The smallest power of two at least `n`.  The bound on `n` keeps the
/// result within `usize`.
pub fn next_pow2(n: usize) -> (r: usize)
    requires
        n <= usize::MAX / 2 + 1,
    ensures
        is_min_pow2_at_least(r as nat, n as nat),
{
    let mut p: usize = 1;
    while p < n
        invariant
            1 <= p,
            is_pow2(p as nat),
            p == 1 || p / 2 < n,
            n <= usize::MAX / 2 + 1,
        decreases 2 * (n as int) - (p as int),
    {
        p = p * 2;
    }
    p
}

} // verus!
