//! Integer quotients with a stated rounding.

use vstd::prelude::*;

verus! {

/// `n / d` rounded downwards, for a `d` above zero.
pub open spec fn floor_quotient(n: int, d: int) -> int {
    n / d
}

/// `n / d` rounded to the nearest integer, halves upwards, for a `d` above
/// zero.
pub open spec fn rounded_quotient(n: int, d: int) -> int {
    floor_quotient(2 * n + d, 2 * d)
}

} // verus!
