//! Small helpers shared by the rest of the crate.

use vstd::prelude::*;

verus! {

/// Applies `func` to both components of a pair, left one first.
pub fn map_tuple<T, R, F: Fn(T) -> R>(pair: (T, T), func: F) -> (out: (R, R))
    requires
        func.requires((pair.0,)),
        func.requires((pair.1,)),
    ensures
        func.ensures((pair.0,), out.0),
        func.ensures((pair.1,), out.1),
{
    let (lhs, rhs) = pair;
    (func(lhs), func(rhs))
}

} // verus!
