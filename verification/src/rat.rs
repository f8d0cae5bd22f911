//! Exact rational numbers with a bounded representation.
//!
//! A value is `num / den` with `den` strictly positive. The arithmetic
//! operations report a defined failure instead of wrapping when a result
//! no longer fits the representation.

use vstd::prelude::*;

verus! {

/// An exact rational number `num / den`; a well-formed value has `den > 0`.
#[derive(Clone, Copy, Debug, PartialEq, Eq, Structural)]
pub struct Rat {
    pub num: i64,
    pub den: i64,
}

impl Rat {
    /// A well-formed rational has a strictly positive denominator.
    pub open spec fn wf(self) -> bool {
        self.den > 0
    }

    /// The whole number `n`.
    pub fn from_int(n: i64) -> (r: Rat)
        ensures
            r.num == n,
            r.den == 1,
            r.wf(),
    {
        Rat { num: n, den: 1 }
    }
}

/// Whether a mathematical integer fits in the numerator/denominator field.
pub open spec fn fits_i64(x: int) -> bool {
    i64::MIN <= x <= i64::MAX
}

} // verus!
