use vstd::prelude::*;
use vstd::arithmetic::power::pow;
use vstd::std_specs::cmp::PartialEqSpec;
use vstd::std_specs::cmp::PartialOrdIs;
use vstd::std_specs::cmp::PartialOrdSpec;
use vstd::std_specs::ops::AddSpec;
use vstd::std_specs::ops::DivSpec;
use vstd::std_specs::ops::MulSpec;
use vstd::std_specs::ops::RemSpec;
use vstd::std_specs::ops::SubSpec;

verus! {

// ---------------------------------------------------------------------------
// Booleans, identity, comparison
// ---------------------------------------------------------------------------

pub fn morloc_not(x: bool) -> (r: bool)
    ensures
        r == !x,
{
    !x
}

pub fn morloc_and(x: bool, y: bool) -> (r: bool)
    ensures
        r == (x && y),
{
    x && y
}

pub fn morloc_or(x: bool, y: bool) -> (r: bool)
    ensures
        r == (x || y),
{
    x || y
}

/// Forces a value through a copy of itself.
pub fn morloc_id<A: Clone>(x: &A) -> (r: A)
    ensures
        cloned(*x, r),
{
    x.clone()
}

/// `x == y`; where `A`'s `==` follows its specification, the result is that specification.
pub fn morloc_eq<A: PartialEq>(x: &A, y: &A) -> (r: bool)
    ensures
        A::obeys_eq_spec() ==> r == x.eq_spec(y),
{
    *x == *y
}

/// `x <= y`; where `A`'s order follows its specification, the result is that specification.
pub fn morloc_le<A: PartialOrd>(x: &A, y: &A) -> (r: bool)
    ensures
        A::obeys_partial_cmp_spec() ==> r == x.is_le(y),
{
    *x <= *y
}

} // verus!
