use vstd::prelude::*;

verus! {

// Packable (Int) Unit: a unit is carried on the wire as an integer.

/// Packs an integer into a unit: the integer is dropped.
pub fn morloc_pack_unit(_u: i64) {
}

/// Unpacks a unit into the integer that carries it: always 0.
pub fn morloc_unpack_unit(_x: ()) -> (r: i64)
    ensures
        r == 0,
{
    0
}

} // verus!
