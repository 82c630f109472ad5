//! Consequences of a lawful `Ord` on the key type.
//!
//! The sorted-insert operations compare keys of a generic type `K: Ord` and
//! rely on `vstd::laws_cmp::obeys_cmp::<K>()`, which bundles the laws a
//! well-behaved comparison satisfies.  The lemmas here turn that bundle into
//! the pointwise facts the binary-search proofs need: flipping the operands
//! flips the answer, `cmp_spec` is reflexively `Equal`, and the strict
//! orders compose through `Less`, `Equal` and `Greater`.

use core::cmp::Ordering;
use vstd::laws_cmp::obeys_cmp;
use vstd::laws_cmp::obeys_cmp_ord;
use vstd::laws_cmp::obeys_cmp_partial_ord;
use vstd::laws_cmp::obeys_partial_cmp_spec_properties;
use vstd::laws_eq::obeys_eq_spec_properties;
use vstd::prelude::*;
use vstd::std_specs::cmp::OrdSpec;
use vstd::std_specs::cmp::PartialEqSpec;
use vstd::std_specs::cmp::PartialOrdSpec;

verus! {

/// A lawful `Ord` obeys the comparison specs of `eq`, `partial_cmp` and
/// `cmp` themselves.
pub proof fn lemma_obeys_cmp_unpack<K: Ord>()
    requires
        obeys_cmp::<K>(),
    ensures
        K::obeys_eq_spec(),
        K::obeys_partial_cmp_spec(),
        K::obeys_cmp_spec(),
{
    reveal(obeys_cmp_partial_ord);
    reveal(obeys_cmp_ord);
}

/// Swapping the operands turns `Less` into `Greater` and keeps `Equal`.
pub proof fn lemma_cmp_flip<K: Ord>(x: K, y: K)
    requires
        obeys_cmp::<K>(),
    ensures
        (x.cmp_spec(&y) == Ordering::Less) <==> (y.cmp_spec(&x) == Ordering::Greater),
        (x.cmp_spec(&y) == Ordering::Equal) <==> (y.cmp_spec(&x) == Ordering::Equal),
{
    reveal(obeys_cmp_partial_ord);
    reveal(obeys_cmp_ord);
    reveal(obeys_partial_cmp_spec_properties);
    reveal(obeys_eq_spec_properties);
    assert(x.partial_cmp_spec(&y) == Some(x.cmp_spec(&y)));
    assert(y.partial_cmp_spec(&x) == Some(y.cmp_spec(&x)));
}

/// Comparing a value with itself answers `Equal`.
pub proof fn lemma_cmp_refl<K: Ord>(x: K)
    requires
        obeys_cmp::<K>(),
    ensures
        x.cmp_spec(&x) == Ordering::Equal,
{
    lemma_cmp_flip(x, x);
}

/// `x` at most `y` and `y` below `z` puts `x` below `z`.
pub proof fn lemma_cmp_less_trans<K: Ord>(x: K, y: K, z: K)
    requires
        obeys_cmp::<K>(),
        x.cmp_spec(&y) != Ordering::Greater,
        y.cmp_spec(&z) == Ordering::Less,
    ensures
        x.cmp_spec(&z) == Ordering::Less,
{
    reveal(obeys_cmp_partial_ord);
    reveal(obeys_cmp_ord);
    reveal(obeys_partial_cmp_spec_properties);
    reveal(obeys_eq_spec_properties);
    assert(x.partial_cmp_spec(&y) == Some(x.cmp_spec(&y)));
    assert(y.partial_cmp_spec(&z) == Some(y.cmp_spec(&z)));
    assert(x.partial_cmp_spec(&z) == Some(x.cmp_spec(&z)));
    assert(y.partial_cmp_spec(&x) == Some(y.cmp_spec(&x)));
    assert(z.partial_cmp_spec(&x) == Some(z.cmp_spec(&x)));
    assert(z.partial_cmp_spec(&y) == Some(z.cmp_spec(&y)));
}

/// `x` below `y` and `y` equal to `z` puts `x` below `z`.
pub proof fn lemma_cmp_less_eq_trans<K: Ord>(x: K, y: K, z: K)
    requires
        obeys_cmp::<K>(),
        x.cmp_spec(&y) == Ordering::Less,
        y.cmp_spec(&z) == Ordering::Equal,
    ensures
        x.cmp_spec(&z) == Ordering::Less,
{
    reveal(obeys_cmp_partial_ord);
    reveal(obeys_cmp_ord);
    reveal(obeys_partial_cmp_spec_properties);
    reveal(obeys_eq_spec_properties);
    assert(x.partial_cmp_spec(&y) == Some(x.cmp_spec(&y)));
    assert(y.partial_cmp_spec(&z) == Some(y.cmp_spec(&z)));
    assert(x.partial_cmp_spec(&z) == Some(x.cmp_spec(&z)));
    assert(y.partial_cmp_spec(&x) == Some(y.cmp_spec(&x)));
    assert(z.partial_cmp_spec(&x) == Some(z.cmp_spec(&x)));
    assert(z.partial_cmp_spec(&y) == Some(z.cmp_spec(&y)));
}

/// `x` at least `y` and `y` above `z` puts `x` above `z`.
pub proof fn lemma_cmp_greater_trans<K: Ord>(x: K, y: K, z: K)
    requires
        obeys_cmp::<K>(),
        x.cmp_spec(&y) != Ordering::Less,
        y.cmp_spec(&z) == Ordering::Greater,
    ensures
        x.cmp_spec(&z) == Ordering::Greater,
{
    reveal(obeys_cmp_partial_ord);
    reveal(obeys_cmp_ord);
    reveal(obeys_partial_cmp_spec_properties);
    reveal(obeys_eq_spec_properties);
    assert(x.partial_cmp_spec(&y) == Some(x.cmp_spec(&y)));
    assert(y.partial_cmp_spec(&z) == Some(y.cmp_spec(&z)));
    assert(x.partial_cmp_spec(&z) == Some(x.cmp_spec(&z)));
    assert(y.partial_cmp_spec(&x) == Some(y.cmp_spec(&x)));
    assert(z.partial_cmp_spec(&x) == Some(z.cmp_spec(&x)));
    assert(z.partial_cmp_spec(&y) == Some(z.cmp_spec(&y)));
}

} // verus!
